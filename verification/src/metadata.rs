//! Extraction of creation and modification instants from a file's tag map:
//! timestamp parsing, plausibility filtering, priority search, and batch
//! extraction with failure bisection.
use crate::text::{digit_val, is_dec_digit};
use crate::timestamp::{
    in_civil_range, spec_civil_secs, valid_civil, CivilTime, Timestamp, END_CIVIL_SECS,
    MIN_CIVIL_SECS,
};
use vstd::prelude::*;

verus! {

/// The resolved instant pair of one media file, both read as UTC.
#[derive(Clone, Copy, Debug, PartialEq, Eq, Structural)]
pub struct MediaDates {
    pub creation_date: Timestamp,
    pub modify_date: Timestamp,
}

/// 2010-01-01T00:00:00Z; accepted dates before it merit a warning.
pub const YEAR_2010_SECS: i64 = 1262304000;

/// An accepted date that is nevertheless suspiciously old.
pub fn is_suspiciously_old(d: Timestamp) -> (r: bool)
    ensures
        r == (d.secs < YEAR_2010_SECS),
{
    d.secs < YEAR_2010_SECS
}

// Placeholder epochs that signal an unset clock rather than a capture time.
/// The Unix epoch, 1970-01-01T00:00:00Z.
pub const EPOCH_UNIX: i64 = 0;

/// 1900-01-01T00:00:00Z.
pub const EPOCH_1900: i64 = -2208988800;

/// 1904-01-01T00:00:00Z, the Macintosh epoch.
pub const EPOCH_1904: i64 = -2082844800;

/// 1980-01-06T00:00:00Z, the GPS epoch.
pub const EPOCH_GPS: i64 = 315964800;

/// 2001-01-01T00:00:00Z, the Apple reference epoch.
pub const EPOCH_2001: i64 = 978307200;

/// `secs` lies within one day of the placeholder epoch `e`.
pub open spec fn near_epoch(secs: int, e: int) -> bool {
    -86400 < secs - e < 86400
}

/// The plausibility filter: a candidate date passes if it is not in the
/// future and not within one day of any placeholder epoch.
pub open spec fn spec_is_valid_date(d: Timestamp, now: Timestamp) -> bool {
    d.spec_le(now) && away_from_placeholders(d)
}

/// `d` lies at least one day away from every placeholder epoch; the part of
/// the plausibility filter that no clock reading can change.
pub open spec fn away_from_placeholders(d: Timestamp) -> bool {
    &&& !near_epoch(d.secs as int, EPOCH_UNIX as int)
    &&& !near_epoch(d.secs as int, EPOCH_1900 as int)
    &&& !near_epoch(d.secs as int, EPOCH_1904 as int)
    &&& !near_epoch(d.secs as int, EPOCH_GPS as int)
    &&& !near_epoch(d.secs as int, EPOCH_2001 as int)
}

pub fn is_valid_date(d: Timestamp, now: Timestamp) -> (r: bool)
    requires
        d.wf(),
    ensures
        r == spec_is_valid_date(d, now),
{
    if !d.le(now) {
        return false;
    }
    let near = |e: i64| -> (b: bool)
        requires
            -2208988800 <= e <= 978307200,
            in_civil_range(d.secs as int),
        ensures
            b == near_epoch(d.secs as int, e as int),
        { d.secs - e < 86400 && e - d.secs < 86400 };
    !near(EPOCH_UNIX) && !near(EPOCH_1900) && !near(EPOCH_1904) && !near(EPOCH_GPS) && !near(
        EPOCH_2001,
    )
}

// ---------------------------------------------------------------------------
// Timestamp strings
//
// The tag values carry timestamps in the form `YYYY:MM:DD HH:MM:SS`, with an
// optional `.mmm` millisecond fraction and an optional trailing zone offset
// `+HH:MM`, `-HH:MM`, `+HHMM` or `-HHMM`.
// ---------------------------------------------------------------------------
/// Positions `i` and `i + 1` of `s` hold decimal digits.
pub open spec fn digits2_at(s: Seq<char>, i: int) -> bool {
    is_dec_digit(s[i]) && is_dec_digit(s[i + 1])
}

/// The two-digit value at position `i`.
pub open spec fn two_at(s: Seq<char>, i: int) -> int {
    digit_val(s[i]) * 10 + digit_val(s[i + 1])
}

/// The string opens with the 19-character `YYYY:MM:DD HH:MM:SS` shape.
pub open spec fn base_shape_ok(s: Seq<char>) -> bool {
    &&& s.len() >= 19
    &&& digits2_at(s, 0) && digits2_at(s, 2)
    &&& s[4] == ':'
    &&& digits2_at(s, 5)
    &&& s[7] == ':'
    &&& digits2_at(s, 8)
    &&& s[10] == ' '
    &&& digits2_at(s, 11)
    &&& s[13] == ':'
    &&& digits2_at(s, 14)
    &&& s[16] == ':'
    &&& digits2_at(s, 17)
}

/// The civil fields spelled by the first 19 characters.
pub open spec fn civil_fields_of(s: Seq<char>) -> CivilTime {
    CivilTime {
        year: (two_at(s, 0) * 100 + two_at(s, 2)) as u32,
        month: two_at(s, 5) as u32,
        day: two_at(s, 8) as u32,
        hour: two_at(s, 11) as u32,
        minute: two_at(s, 14) as u32,
        second: two_at(s, 17) as u32,
    }
}

/// The seconds east of UTC spelled by a zone suffix such as `+08:00` or
/// `-0500`; `None` if `z` is not a zone suffix.
pub open spec fn zone_of(z: Seq<char>) -> Option<int> {
    if z.len() == 5 && (z[0] == '+' || z[0] == '-') && digits2_at(z, 1) && digits2_at(z, 3) {
        let mag = two_at(z, 1) * 3600 + two_at(z, 3) * 60;
        Some(
            if z[0] == '-' {
                -mag
            } else {
                mag
            },
        )
    } else if z.len() == 6 && (z[0] == '+' || z[0] == '-') && digits2_at(z, 1) && z[3] == ':'
        && digits2_at(z, 4) {
        let mag = two_at(z, 1) * 3600 + two_at(z, 4) * 60;
        Some(
            if z[0] == '-' {
                -mag
            } else {
                mag
            },
        )
    } else {
        None
    }
}

/// The millisecond fraction and zone offset spelled by the tail after the
/// 19 base characters; `None` if the tail is not of that shape.
pub open spec fn frac_zone_of(t: Seq<char>) -> Option<(int, Option<int>)> {
    if t.len() == 0 {
        Some((0int, None))
    } else if t[0] == '.' {
        if t.len() >= 4 && is_dec_digit(t[1]) && is_dec_digit(t[2]) && is_dec_digit(t[3]) {
            let ms = digit_val(t[1]) * 100 + digit_val(t[2]) * 10 + digit_val(t[3]);
            let rest = t.skip(4);
            if rest.len() == 0 {
                Some((ms, None))
            } else {
                match zone_of(rest) {
                    Some(o) => Some((ms, Some(o))),
                    None => None,
                }
            }
        } else {
            None
        }
    } else {
        match zone_of(t) {
            Some(o) => Some((0int, Some(o))),
            None => None,
        }
    }
}

/// What a timestamp string denotes: the instant of its civil fields, shifted
/// by its own zone suffix if present, else by `fallback_offset` if given,
/// else read directly as UTC. `None` when the string is not of the timestamp
/// shape, a field is out of range, or the instant leaves the representable
/// civil range.
pub open spec fn spec_parse_exif(s: Seq<char>, fallback_offset: Option<int>) -> Option<Timestamp> {
    if !base_shape_ok(s) {
        None
    } else {
        let c = civil_fields_of(s);
        if !valid_civil(c) {
            None
        } else {
            match frac_zone_of(s.skip(19)) {
                None => None,
                Some((ms, z)) => {
                    let off: int = match z {
                        Some(o) => o,
                        None => match fallback_offset {
                            Some(o) => o,
                            None => 0,
                        },
                    };
                    let secs = spec_civil_secs(c) - off;
                    if in_civil_range(secs) {
                        Some(Timestamp { secs: secs as i64, millis: ms as u32 })
                    } else {
                        None
                    }
                },
            }
        }
    }
}

/// The spec-level image of an `Option<i32>` offset.
pub open spec fn opt_offset(o: Option<i32>) -> Option<int> {
    match o {
        Some(v) => Some(v as int),
        None => None,
    }
}

/// Reads the decimal digit at position `i`, if there is one.
fn read_digit(s: &str, i: usize) -> (r: Option<u32>)
    requires
        i < s@.len(),
    ensures
        r is Some <==> is_dec_digit(s@[i as int]),
        r matches Some(v) ==> v == digit_val(s@[i as int]) && v < 10,
{
    let c = s.get_char(i);
    let v = c as u32;
    if 48 <= v && v <= 57 {
        Some(v - 48)
    } else {
        None
    }
}

/// Reads the two-digit value at position `i`, if both are digits.
fn read_two(s: &str, i: usize) -> (r: Option<u32>)
    requires
        i + 1 < s@.len(),
        s@.len() <= usize::MAX,
    ensures
        r is Some <==> digits2_at(s@, i as int),
        r matches Some(v) ==> v == two_at(s@, i as int) && v < 100,
{
    match (read_digit(s, i), read_digit(s, i + 1)) {
        (Some(a), Some(b)) => Some(a * 10 + b),
        _ => None,
    }
}

/// Whether position `i` holds exactly the character `c`.
fn char_at_is(s: &str, i: usize, c: char) -> (r: bool)
    requires
        i < s@.len(),
    ensures
        r == (s@[i as int] == c),
{
    s.get_char(i) == c
}

/// Reads the zone suffix starting at `i` and running to the end of `s`.
fn read_zone(s: &str, i: usize, n: usize) -> (r: Option<i64>)
    requires
        i < n,
        n == s@.len(),
    ensures
        r is Some <==> zone_of(s@.skip(i as int)) is Some,
        r matches Some(v) ==> zone_of(s@.skip(i as int)) == Some(v as int),
{
    let ghost z = s@.skip(i as int);
    proof {
        assert(forall|j: int| 0 <= j < z.len() ==> z[j] == s@[i + j]);
    }
    let len = n - i;
    if len != 5 && len != 6 {
        return None;
    }
    let sign_char = s.get_char(i);
    if sign_char != '+' && sign_char != '-' {
        return None;
    }
    let hours = match read_two(s, i + 1) {
        Some(v) => v,
        None => {
            return None;
        },
    };
    let minutes = if len == 5 {
        match read_two(s, i + 3) {
            Some(v) => v,
            None => {
                return None;
            },
        }
    } else {
        if !char_at_is(s, i + 3, ':') {
            return None;
        }
        match read_two(s, i + 4) {
            Some(v) => v,
            None => {
                return None;
            },
        }
    };
    let mag: i64 = hours as i64 * 3600 + minutes as i64 * 60;
    if sign_char == '-' {
        Some(-mag)
    } else {
        Some(mag)
    }
}

/// Parses a tag value as a timestamp string: `YYYY:MM:DD HH:MM:SS`, with an
/// optional millisecond fraction and an optional trailing zone offset. A
/// string with no zone suffix is shifted by `fallback_offset` seconds if one
/// is given, else read as UTC.
pub fn parse_date_string(s: &str, fallback_offset: Option<i32>) -> (r: Option<Timestamp>)
    ensures
        r == spec_parse_exif(s@, opt_offset(fallback_offset)),
        r matches Some(ts) ==> ts.wf(),
{
    let n = s.unicode_len();
    if n < 19 {
        return None;
    }
    let y_hi = read_two(s, 0);
    let y_lo = read_two(s, 2);
    let (y_hi, y_lo) = match (y_hi, y_lo) {
        (Some(a), Some(b)) => (a, b),
        _ => {
            return None;
        },
    };
    if !char_at_is(s, 4, ':') {
        return None;
    }
    let month = match read_two(s, 5) {
        Some(v) => v,
        None => {
            return None;
        },
    };
    if !char_at_is(s, 7, ':') {
        return None;
    }
    let day = match read_two(s, 8) {
        Some(v) => v,
        None => {
            return None;
        },
    };
    if !char_at_is(s, 10, ' ') {
        return None;
    }
    let hour = match read_two(s, 11) {
        Some(v) => v,
        None => {
            return None;
        },
    };
    if !char_at_is(s, 13, ':') {
        return None;
    }
    let minute = match read_two(s, 14) {
        Some(v) => v,
        None => {
            return None;
        },
    };
    if !char_at_is(s, 16, ':') {
        return None;
    }
    let second = match read_two(s, 17) {
        Some(v) => v,
        None => {
            return None;
        },
    };
    let c = CivilTime { year: y_hi * 100 + y_lo, month, day, hour, minute, second };
    assert(c == civil_fields_of(s@));
    if !crate::timestamp::is_valid_civil(c) {
        return None;
    }
    let base = crate::timestamp::civil_to_secs(c);
    let ghost t = s@.skip(19);
    proof {
        assert(forall|j: int| 0 <= j < t.len() ==> t[j] == s@[19 + j]);
    }
    // The tail: an optional `.mmm` fraction, then an optional zone suffix.
    let (ms, zone): (u32, Option<i64>) = if n == 19 {
        (0, None)
    } else if char_at_is(s, 19, '.') {
        if n < 23 {
            return None;
        }
        let d1 = read_digit(s, 20);
        let d2 = read_digit(s, 21);
        let d3 = read_digit(s, 22);
        let (d1, d2, d3) = match (d1, d2, d3) {
            (Some(a), Some(b), Some(cc)) => (a, b, cc),
            _ => {
                return None;
            },
        };
        let ghost rest = t.skip(4);
        proof {
            assert(forall|j: int| 0 <= j < rest.len() ==> rest[j] == s@[23 + j]);
            assert(rest =~= s@.skip(23));
        }
        if n == 23 {
            (d1 * 100 + d2 * 10 + d3, None)
        } else {
            match read_zone(s, 23, n) {
                Some(o) => (d1 * 100 + d2 * 10 + d3, Some(o)),
                None => {
                    return None;
                },
            }
        }
    } else {
        match read_zone(s, 19, n) {
            Some(o) => (0, Some(o)),
            None => {
                return None;
            },
        }
    };
    let off: i64 = match (zone, fallback_offset) {
        (Some(o), _) => o,
        (None, Some(o)) => o as i64,
        (None, None) => 0,
    };
    let secs = base - off;
    if MIN_CIVIL_SECS <= secs && secs < END_CIVIL_SECS {
        Some(Timestamp { secs, millis: ms })
    } else {
        None
    }
}

// ---------------------------------------------------------------------------
// Tag maps
// ---------------------------------------------------------------------------
/// One tag's value: a single string, an array whose string elements matter
/// (a non-string element is `None`), or a value of any other JSON type.
pub enum TagValue {
    Text(String),
    List(Vec<Option<String>>),
    Other,
}

/// A file's metadata: tag names, optionally group-prefixed as in
/// `EXIF:CreateDate`, mapped to raw values. Lookup takes the first entry
/// with the asked-for name.
pub struct TagMap {
    pub entries: Vec<(String, TagValue)>,
}

/// The value of the first entry of `entries`, from index `i` on, whose key
/// reads `key`.
pub open spec fn spec_get_from(
    entries: Seq<(String, TagValue)>,
    key: Seq<char>,
    i: int,
) -> Option<TagValue>
    decreases entries.len() - i,
{
    if i < 0 || i >= entries.len() {
        None
    } else if entries[i].0@ == key {
        Some(entries[i].1)
    } else {
        spec_get_from(entries, key, i + 1)
    }
}

/// The value stored under `key`, if any.
pub open spec fn spec_get(m: &TagMap, key: Seq<char>) -> Option<TagValue> {
    spec_get_from(m.entries@, key, 0)
}

impl TagMap {
    /// Looks up `key`, taking the first entry with that name.
    pub fn get<'a>(&'a self, key: &str) -> (r: Option<&'a TagValue>)
        ensures
            match r {
                Some(v) => spec_get(self, key@) == Some(*v),
                None => spec_get(self, key@) is None,
            },
    {
        let n = self.entries.len();
        let mut i: usize = 0;
        while i < n
            invariant
                0 <= i <= n,
                n == self.entries@.len(),
                spec_get_from(self.entries@, key@, 0) == spec_get_from(self.entries@, key@, i as int),
            decreases n - i,
        {
            if crate::text::string_eq_str(&self.entries[i].0, key) {
                return Some(&self.entries[i].1);
            }
            i = i + 1;
        }
        None
    }
}

// ---------------------------------------------------------------------------
// Zone-offset tags
// ---------------------------------------------------------------------------
/// What a zone-offset tag value denotes: seconds east of UTC for a six
/// character `+HH:MM` or `-HH:MM` string, `None` otherwise.
pub open spec fn spec_parse_tz(s: Seq<char>) -> Option<int> {
    if s.len() == 6 {
        zone_of(s)
    } else {
        None
    }
}

/// Parses a zone-offset tag value of the form `+HH:MM` or `-HH:MM` into
/// seconds east of UTC.
pub fn parse_timezone_offset(s: &str) -> (r: Option<i32>)
    ensures
        opt_offset(r) == spec_parse_tz(s@),
{
    let n = s.unicode_len();
    if n != 6 {
        return None;
    }
    proof {
        assert(s@.skip(0) =~= s@);
    }
    match read_zone(s, 0, n) {
        Some(v) => {
            proof {
                let z = s@;
                assert(zone_of(z) matches Some(o) ==> -362340 <= o <= 362340);
            }
            Some(v as i32)
        },
        None => None,
    }
}

/// The first zone-offset tag with a string value, from index `i` of `keys` on.
pub open spec fn spec_first_text_from(m: &TagMap, keys: Seq<Seq<char>>, i: int) -> Option<
    Seq<char>,
>
    decreases keys.len() - i,
{
    if i < 0 || i >= keys.len() {
        None
    } else {
        match spec_get(m, keys[i]) {
            Some(TagValue::Text(s)) => Some(s@),
            _ => spec_first_text_from(m, keys, i + 1),
        }
    }
}

/// A zone-offset key without a string value passes the search on.
proof fn lemma_tz_step(m: &TagMap, keys: Seq<Seq<char>>, i: int)
    requires
        0 <= i < keys.len(),
        !(spec_get(m, keys[i]) matches Some(TagValue::Text(_))),
    ensures
        spec_first_text_from(m, keys, i) == spec_first_text_from(m, keys, i + 1),
{
}

/// A zone-offset key holding a string ends the search.
proof fn lemma_tz_hit(m: &TagMap, keys: Seq<Seq<char>>, i: int, s: Seq<char>)
    requires
        0 <= i < keys.len(),
        spec_get(m, keys[i]) matches Some(TagValue::Text(v)) && v@ == s,
    ensures
        spec_first_text_from(m, keys, i) == Some(s),
{
}

/// The zone-offset tag names searched, in order.
pub open spec fn tz_keys() -> Seq<Seq<char>> {
    seq![
        "OffsetTime"@,
        "EXIF:OffsetTime"@,
        "OffsetTimeOriginal"@,
        "EXIF:OffsetTimeOriginal"@,
        "OffsetTimeDigitized"@,
        "EXIF:OffsetTimeDigitized"@,
    ]
}

/// What the zone-offset search yields: the parse of the first zone-offset
/// tag that holds a string, or `None` when there is none.
pub open spec fn spec_extract_tz(m: &TagMap) -> Option<int> {
    match spec_first_text_from(m, tz_keys(), 0) {
        Some(s) => spec_parse_tz(s),
        None => None,
    }
}

/// Finds the zone offset the file's tags declare, if any: the first of the
/// zone-offset tags holding a string decides, parsed as `+HH:MM` / `-HH:MM`.
pub fn extract_timezone_offset(m: &TagMap) -> (r: Option<i32>)
    ensures
        opt_offset(r) == spec_extract_tz(m),
{
    let ghost keys = tz_keys();
    let r0 = m.get("OffsetTime");
    match r0 {
        Some(TagValue::Text(s)) => {
            proof {
                lemma_tz_hit(m, keys, 0, s@);
            }
            return parse_timezone_offset(s.as_str());
        },
        _ => {},
    }
    proof {
        lemma_tz_step(m, keys, 0);
    }
    let r1 = m.get("EXIF:OffsetTime");
    match r1 {
        Some(TagValue::Text(s)) => {
            proof {
                lemma_tz_hit(m, keys, 1, s@);
            }
            return parse_timezone_offset(s.as_str());
        },
        _ => {},
    }
    proof {
        lemma_tz_step(m, keys, 1);
    }
    let r2 = m.get("OffsetTimeOriginal");
    match r2 {
        Some(TagValue::Text(s)) => {
            proof {
                lemma_tz_hit(m, keys, 2, s@);
            }
            return parse_timezone_offset(s.as_str());
        },
        _ => {},
    }
    proof {
        lemma_tz_step(m, keys, 2);
    }
    let r3 = m.get("EXIF:OffsetTimeOriginal");
    match r3 {
        Some(TagValue::Text(s)) => {
            proof {
                lemma_tz_hit(m, keys, 3, s@);
            }
            return parse_timezone_offset(s.as_str());
        },
        _ => {},
    }
    proof {
        lemma_tz_step(m, keys, 3);
    }
    let r4 = m.get("OffsetTimeDigitized");
    match r4 {
        Some(TagValue::Text(s)) => {
            proof {
                lemma_tz_hit(m, keys, 4, s@);
            }
            return parse_timezone_offset(s.as_str());
        },
        _ => {},
    }
    proof {
        lemma_tz_step(m, keys, 4);
    }
    let r5 = m.get("EXIF:OffsetTimeDigitized");
    match r5 {
        Some(TagValue::Text(s)) => {
            proof {
                lemma_tz_hit(m, keys, 5, s@);
            }
            return parse_timezone_offset(s.as_str());
        },
        _ => {},
    }
    proof {
        lemma_tz_step(m, keys, 5);
    }
    None
}

// ---------------------------------------------------------------------------
// Arrays of dates: statistical mode, ties broken toward the earliest
// ---------------------------------------------------------------------------
/// How many elements of `ds`, from index `i` on, fall in the second `sec`.
pub open spec fn count_secs_from(ds: Seq<Timestamp>, sec: i64, i: int) -> int
    decreases ds.len() - i,
{
    if i < 0 || i >= ds.len() {
        0
    } else {
        (if ds[i].secs == sec {
            1int
        } else {
            0int
        }) + count_secs_from(ds, sec, i + 1)
    }
}

/// How many elements of `ds` fall in the second `sec`.
pub open spec fn count_secs(ds: Seq<Timestamp>, sec: i64) -> int {
    count_secs_from(ds, sec, 0)
}

/// `r` is an element of `ds` whose second is most frequent, and the earliest
/// element among those of most-frequent seconds.
pub open spec fn is_mode_or_earliest(ds: Seq<Timestamp>, r: Timestamp) -> bool {
    &&& ds.contains(r)
    &&& forall|j: int| 0 <= j < ds.len() ==> count_secs(ds, ds[j].secs) <= count_secs(ds, r.secs)
    &&& forall|j: int|
        0 <= j < ds.len() && count_secs(ds, ds[j].secs) == count_secs(ds, r.secs) ==> r.spec_le(
            ds[j],
        )
}

/// Only one element fits the mode-or-earliest description.
pub proof fn lemma_mode_unique(ds: Seq<Timestamp>, r1: Timestamp, r2: Timestamp)
    requires
        is_mode_or_earliest(ds, r1),
        is_mode_or_earliest(ds, r2),
    ensures
        r1 == r2,
{
    let i1 = choose|i: int| 0 <= i < ds.len() && ds[i] == r1;
    let i2 = choose|i: int| 0 <= i < ds.len() && ds[i] == r2;
    assert(count_secs(ds, r1.secs) == count_secs(ds, r2.secs));
    assert(r1.spec_le(r2) && r2.spec_le(r1));
}

/// The element selected from a non-empty date array.
pub open spec fn spec_mode_or_earliest(ds: Seq<Timestamp>) -> Timestamp {
    choose|r: Timestamp| is_mode_or_earliest(ds, r)
}

/// Counts the elements of `ds` whose second is `sec`.
fn count_eq(ds: &Vec<Timestamp>, sec: i64) -> (r: usize)
    ensures
        r == count_secs(ds@, sec),
{
    let n = ds.len();
    let mut cnt: usize = 0;
    let mut i: usize = 0;
    while i < n
        invariant
            0 <= i <= n,
            n == ds@.len(),
            cnt == count_secs(ds@, sec) - count_secs_from(ds@, sec, i as int),
            cnt <= i,
        decreases n - i,
    {
        if ds[i].secs == sec {
            cnt = cnt + 1;
        }
        i = i + 1;
    }
    cnt
}

/// Selects the statistical mode of `ds` by exact-second equality; a tie
/// among modes selects the earliest instant.
pub fn find_mode_or_earliest(ds: &Vec<Timestamp>) -> (r: Timestamp)
    requires
        ds@.len() > 0,
    ensures
        is_mode_or_earliest(ds@, r),
        r == spec_mode_or_earliest(ds@),
{
    let n = ds.len();
    let mut best = ds[0];
    let mut best_cnt = count_eq(ds, best.secs);
    assert(ds@.contains(best)) by {
        assert(ds@[0] == best);
    }
    let mut i: usize = 1;
    while i < n
        invariant
            1 <= i <= n,
            n == ds@.len(),
            ds@.contains(best),
            best_cnt == count_secs(ds@, best.secs),
            forall|j: int| 0 <= j < i ==> count_secs(ds@, ds@[j].secs) <= best_cnt as int,
            forall|j: int|
                0 <= j < i && count_secs(ds@, ds@[j].secs) == best_cnt as int ==> best.spec_le(
                    ds@[j],
                ),
        decreases n - i,
    {
        let c = count_eq(ds, ds[i].secs);
        let cur = ds[i];
        if c > best_cnt || (c == best_cnt && (cur.secs < best.secs || (cur.secs == best.secs
            && cur.millis < best.millis))) {
            best = cur;
            best_cnt = c;
            assert(ds@.contains(best)) by {
                assert(ds@[i as int] == best);
            }
        }
        i = i + 1;
    }
    proof {
        assert(is_mode_or_earliest(ds@, best));
        lemma_mode_unique(ds@, spec_mode_or_earliest(ds@), best);
    }
    best
}

/// A second that strictly outnumbers every other is selected, no matter
/// where its elements sit in the array.
pub proof fn lemma_mode_majority(ds: Seq<Timestamp>, r: Timestamp, k: int)
    requires
        is_mode_or_earliest(ds, r),
        0 <= k < ds.len(),
        forall|j: int|
            0 <= j < ds.len() && ds[j].secs != ds[k].secs ==> count_secs(ds, ds[j].secs)
                < count_secs(ds, ds[k].secs),
    ensures
        r.secs == ds[k].secs,
{
    let ri = choose|i: int| 0 <= i < ds.len() && ds[i] == r;
    if r.secs != ds[k].secs {
        assert(count_secs(ds, ds[ri].secs) < count_secs(ds, ds[k].secs));
        assert(count_secs(ds, ds[k].secs) <= count_secs(ds, r.secs));
    }
}

/// On an exact tie between two most-frequent seconds, the earlier element
/// is the one selected.
pub proof fn lemma_mode_tie_earliest(ds: Seq<Timestamp>, r: Timestamp, k: int)
    requires
        is_mode_or_earliest(ds, r),
        0 <= k < ds.len(),
        count_secs(ds, ds[k].secs) == count_secs(ds, r.secs),
    ensures
        r.spec_le(ds[k]),
{
}

// ---------------------------------------------------------------------------
// Candidate dates per tag
// ---------------------------------------------------------------------------
/// The timestamps spelled by the string elements of an array value, from
/// index `i` on, each read with the fallback offset `tz`.
pub open spec fn spec_parse_list_from(a: Seq<Option<Seq<char>>>, tz: Option<int>, i: int) -> Seq<
    Timestamp,
>
    decreases a.len() - i,
{
    if i < 0 || i >= a.len() {
        Seq::empty()
    } else {
        let rest = spec_parse_list_from(a, tz, i + 1);
        match a[i] {
            Some(s) => match spec_parse_exif(s, tz) {
                Some(d) => seq![d] + rest,
                None => rest,
            },
            None => rest,
        }
    }
}

/// Parses every string element of an array value as a timestamp, keeping
/// the order of the array.
fn parse_date_list(arr: &Vec<Option<String>>, tz: Option<i32>) -> (r: Vec<Timestamp>)
    ensures
        r@ == spec_parse_list_from(arr.deep_view(), opt_offset(tz), 0),
        forall|j: int| 0 <= j < r@.len() ==> (#[trigger] r@[j]).wf(),
{
    let n = arr.len();
    let mut out: Vec<Timestamp> = Vec::new();
    let ghost a = arr.deep_view();
    let ghost tzv = opt_offset(tz);
    let mut i: usize = 0;
    while i < n
        invariant
            0 <= i <= n,
            n == arr@.len(),
            a == arr.deep_view(),
            tzv == opt_offset(tz),
            spec_parse_list_from(a, tzv, 0) == out@ + spec_parse_list_from(a, tzv, i as int),
            forall|j: int| 0 <= j < out@.len() ==> (#[trigger] out@[j]).wf(),
        decreases n - i,
    {
        proof {
            assert(a[i as int] == arr@[i as int].deep_view());
        }
        match &arr[i] {
            Some(s) => {
                match parse_date_string(s.as_str(), tz) {
                    Some(d) => {
                        out.push(d);
                        proof {
                            assert(spec_parse_list_from(a, tzv, i as int) == seq![d]
                                + spec_parse_list_from(a, tzv, i + 1));
                            assert(spec_parse_list_from(a, tzv, 0) == out@ + spec_parse_list_from(
                                a,
                                tzv,
                                i + 1,
                            ));
                        }
                    },
                    None => {},
                }
            },
            None => {},
        }
        i = i + 1;
    }
    proof {
        assert(spec_parse_list_from(a, tzv, n as int) =~= Seq::<Timestamp>::empty());
        assert(spec_parse_list_from(a, tzv, 0) =~= out@);
    }
    out
}

/// The candidate date stored under one concrete key: a string value is
/// parsed directly; an array value yields its mode-or-earliest element, if
/// any element parses; other values yield nothing.
pub open spec fn spec_key_candidate(m: &TagMap, key: Seq<char>, tz: Option<int>) -> Option<
    Timestamp,
> {
    match spec_get(m, key) {
        Some(TagValue::Text(s)) => spec_parse_exif(s@, tz),
        Some(TagValue::List(a)) => {
            let ds = spec_parse_list_from(a.deep_view(), tz, 0);
            if ds.len() > 0 {
                Some(spec_mode_or_earliest(ds))
            } else {
                None
            }
        },
        _ => None,
    }
}

fn key_candidate(m: &TagMap, key: &str, tz: Option<i32>) -> (r: Option<Timestamp>)
    ensures
        r == spec_key_candidate(m, key@, opt_offset(tz)),
        r matches Some(d) ==> d.wf(),
{
    match m.get(key) {
        Some(TagValue::Text(s)) => parse_date_string(s.as_str(), tz),
        Some(TagValue::List(a)) => {
            let ds = parse_date_list(a, tz);
            if ds.len() > 0 {
                let r = find_mode_or_earliest(&ds);
                proof {
                    let k = choose|k: int| 0 <= k < ds@.len() && ds@[k] == r;
                    assert(ds@[k].wf());
                }
                Some(r)
            } else {
                None
            }
        },
        _ => None,
    }
}

/// The group-prefixed spellings under which a tag is looked up, in order.
pub open spec fn date_keys(tag: Seq<char>) -> Seq<Seq<char>> {
    seq![
        tag,
        "EXIF:"@ + tag,
        "QuickTime:"@ + tag,
        "XMP:"@ + tag,
        "Composite:"@ + tag,
        "File:"@ + tag,
    ]
}

/// The candidate of the first key spelling, from index `i` on, that yields
/// a date.
pub open spec fn spec_keys_candidate_from(
    m: &TagMap,
    keys: Seq<Seq<char>>,
    tz: Option<int>,
    i: int,
) -> Option<Timestamp>
    decreases keys.len() - i,
{
    if i < 0 || i >= keys.len() {
        None
    } else {
        match spec_key_candidate(m, keys[i], tz) {
            Some(d) => Some(d),
            None => spec_keys_candidate_from(m, keys, tz, i + 1),
        }
    }
}

/// The candidate date of a tag, searched under all its group-prefixed
/// spellings.
pub open spec fn spec_find_and_parse(m: &TagMap, tag: Seq<char>, tz: Option<int>) -> Option<
    Timestamp,
> {
    spec_keys_candidate_from(m, date_keys(tag), tz, 0)
}

/// A key that yields nothing passes the search on to the next spelling.
proof fn lemma_keys_step(m: &TagMap, keys: Seq<Seq<char>>, tz: Option<int>, i: int)
    requires
        0 <= i < keys.len(),
        spec_key_candidate(m, keys[i], tz) is None,
    ensures
        spec_keys_candidate_from(m, keys, tz, i) == spec_keys_candidate_from(m, keys, tz, i + 1),
{
}

/// A key that yields a date ends the search.
proof fn lemma_keys_hit(m: &TagMap, keys: Seq<Seq<char>>, tz: Option<int>, i: int)
    requires
        0 <= i < keys.len(),
        spec_key_candidate(m, keys[i], tz) is Some,
    ensures
        spec_keys_candidate_from(m, keys, tz, i) == spec_key_candidate(m, keys[i], tz),
{
}

/// Looks a tag up under its group-prefixed spellings and parses the first
/// value that yields a date.
pub fn find_and_parse_date(m: &TagMap, tag: &str, tz: Option<i32>) -> (r: Option<Timestamp>)
    ensures
        r == spec_find_and_parse(m, tag@, opt_offset(tz)),
        r matches Some(d) ==> d.wf(),
{
    let ghost keys = date_keys(tag@);
    let ghost tzv = opt_offset(tz);
    let c0 = key_candidate(m, tag, tz);
    if c0.is_some() {
        proof {
            lemma_keys_hit(m, keys, tzv, 0);
        }
        return c0;
    }
    proof {
        lemma_keys_step(m, keys, tzv, 0);
    }
    let k1 = String::from_str("EXIF:").concat(tag);
    let c1 = key_candidate(m, k1.as_str(), tz);
    if c1.is_some() {
        proof {
            lemma_keys_hit(m, keys, tzv, 1);
        }
        return c1;
    }
    proof {
        lemma_keys_step(m, keys, tzv, 1);
    }
    let k2 = String::from_str("QuickTime:").concat(tag);
    let c2 = key_candidate(m, k2.as_str(), tz);
    if c2.is_some() {
        proof {
            lemma_keys_hit(m, keys, tzv, 2);
        }
        return c2;
    }
    proof {
        lemma_keys_step(m, keys, tzv, 2);
    }
    let k3 = String::from_str("XMP:").concat(tag);
    let c3 = key_candidate(m, k3.as_str(), tz);
    if c3.is_some() {
        proof {
            lemma_keys_hit(m, keys, tzv, 3);
        }
        return c3;
    }
    proof {
        lemma_keys_step(m, keys, tzv, 3);
    }
    let k4 = String::from_str("Composite:").concat(tag);
    let c4 = key_candidate(m, k4.as_str(), tz);
    if c4.is_some() {
        proof {
            lemma_keys_hit(m, keys, tzv, 4);
        }
        return c4;
    }
    proof {
        lemma_keys_step(m, keys, tzv, 4);
    }
    let k5 = String::from_str("File:").concat(tag);
    let c5 = key_candidate(m, k5.as_str(), tz);
    proof {
        if c5 is Some {
            lemma_keys_hit(m, keys, tzv, 5);
        } else {
            lemma_keys_step(m, keys, tzv, 5);
        }
    }
    c5
}

// ---------------------------------------------------------------------------
// The embedded user-comment date
// ---------------------------------------------------------------------------
/// The `orgFileModifiedDate` string of `s` read as a JSON document, if `s`
/// is one and carries that string field; a function of `s` alone.
pub uninterp spec fn embedded_org_date(s: Seq<char>) -> Option<Seq<char>>;

/// Relies on serde_json::from_str and serde_json::Value::get / as_str: yields
/// the `orgFileModifiedDate` string field of `s` parsed as a JSON document,
/// which depends on the characters of `s` alone.
#[verifier::external_body]
fn user_comment_embedded_date(s: &str) -> (r: Option<String>)
    ensures
        r is Some <==> embedded_org_date(s@) is Some,
        r matches Some(d) ==> embedded_org_date(s@) == Some(d@),
{
    serde_json::from_str::<serde_json::Value>(s).ok().and_then(
        |v| v.get("orgFileModifiedDate").and_then(|d| d.as_str()).map(|x| x.to_string()),
    )
}

/// The date a user-comment value carries under one key: the value must be a
/// string holding a JSON document with an `orgFileModifiedDate` field that
/// parses as a timestamp, read as UTC.
pub open spec fn spec_uc_key(m: &TagMap, key: Seq<char>) -> Option<Timestamp> {
    match spec_get(m, key) {
        Some(TagValue::Text(s)) => match embedded_org_date(s@) {
            Some(d) => spec_parse_exif(d, None),
            None => None,
        },
        _ => None,
    }
}

/// The user-comment keys searched, in order.
pub open spec fn uc_keys() -> Seq<Seq<char>> {
    seq!["UserComment"@, "EXIF:UserComment"@]
}

/// The date of the first user-comment key, from `i` on, that carries one.
pub open spec fn spec_uc_from(m: &TagMap, keys: Seq<Seq<char>>, i: int) -> Option<Timestamp>
    decreases keys.len() - i,
{
    if i < 0 || i >= keys.len() {
        None
    } else {
        match spec_uc_key(m, keys[i]) {
            Some(d) => Some(d),
            None => spec_uc_from(m, keys, i + 1),
        }
    }
}

/// The date carried by the user-comment tag, if any.
pub open spec fn spec_user_comment_date(m: &TagMap) -> Option<Timestamp> {
    spec_uc_from(m, uc_keys(), 0)
}

proof fn lemma_uc_step(m: &TagMap, keys: Seq<Seq<char>>, i: int)
    requires
        0 <= i < keys.len(),
        spec_uc_key(m, keys[i]) is None,
    ensures
        spec_uc_from(m, keys, i) == spec_uc_from(m, keys, i + 1),
{
}

proof fn lemma_uc_hit(m: &TagMap, keys: Seq<Seq<char>>, i: int)
    requires
        0 <= i < keys.len(),
        spec_uc_key(m, keys[i]) is Some,
    ensures
        spec_uc_from(m, keys, i) == spec_uc_key(m, keys[i]),
{
}

fn uc_key_candidate(m: &TagMap, key: &str) -> (r: Option<Timestamp>)
    ensures
        r == spec_uc_key(m, key@),
        r matches Some(d) ==> d.wf(),
{
    let g = m.get(key);
    match g {
        Some(TagValue::Text(s)) => match user_comment_embedded_date(s.as_str()) {
            Some(d) => parse_date_string(d.as_str(), None),
            None => None,
        },
        _ => None,
    }
}

/// Reads the date embedded in the user-comment tag: a comment-style field
/// may itself hold a JSON document carrying an `orgFileModifiedDate` string.
pub fn extract_date_from_user_comment(m: &TagMap) -> (r: Option<Timestamp>)
    ensures
        r == spec_user_comment_date(m),
        r matches Some(d) ==> d.wf(),
{
    let ghost keys = uc_keys();
    let c0 = uc_key_candidate(m, "UserComment");
    if c0.is_some() {
        proof {
            lemma_uc_hit(m, keys, 0);
        }
        return c0;
    }
    proof {
        lemma_uc_step(m, keys, 0);
    }
    let c1 = uc_key_candidate(m, "EXIF:UserComment");
    proof {
        if c1 is Some {
            lemma_uc_hit(m, keys, 1);
        } else {
            lemma_uc_step(m, keys, 1);
        }
    }
    c1
}

// ---------------------------------------------------------------------------
// Priority search
// ---------------------------------------------------------------------------
/// The candidate date a tag contributes: the user-comment tag contributes
/// its embedded date; every other tag is searched under its group-prefixed
/// spellings, with the zone offset the map declares as fallback.
pub open spec fn spec_tag_candidate(m: &TagMap, tag: Seq<char>) -> Option<Timestamp> {
    if tag == "UserComment"@ {
        spec_user_comment_date(m)
    } else {
        spec_find_and_parse(m, tag, spec_extract_tz(m))
    }
}

/// A tag's candidate if it passes the plausibility filter, else nothing.
pub open spec fn spec_passing_candidate(m: &TagMap, tag: Seq<char>, now: Timestamp) -> Option<
    Timestamp,
> {
    match spec_tag_candidate(m, tag) {
        Some(d) => if spec_is_valid_date(d, now) {
            Some(d)
        } else {
            None
        },
        None => None,
    }
}

/// The first passing candidate of the tags from index `i` on.
pub open spec fn spec_priority_from(
    m: &TagMap,
    tags: Seq<Seq<char>>,
    now: Timestamp,
    i: int,
) -> Option<Timestamp>
    decreases tags.len() - i,
{
    if i < 0 || i >= tags.len() {
        None
    } else {
        match spec_passing_candidate(m, tags[i], now) {
            Some(d) => Some(d),
            None => spec_priority_from(m, tags, now, i + 1),
        }
    }
}

/// The date the priority list resolves to: the first tag, in list order,
/// whose candidate passes the plausibility filter.
pub open spec fn spec_date_by_priority(
    m: &TagMap,
    tags: Seq<Seq<char>>,
    now: Timestamp,
) -> Option<Timestamp> {
    spec_priority_from(m, tags, now, 0)
}

/// The views of an executable tag list.
pub open spec fn view_tags(tags: Seq<&str>) -> Seq<Seq<char>> {
    tags.map(|i: int, t: &str| t@)
}

/// Searches the tags in priority order and returns the first candidate that
/// passes the plausibility filter against `now`.
pub fn extract_date_by_priority(m: &TagMap, tags: &Vec<&str>, now: Timestamp) -> (r: Option<
    Timestamp,
>)
    ensures
        r == spec_date_by_priority(m, view_tags(tags@), now),
        r matches Some(d) ==> d.wf() && spec_is_valid_date(d, now),
{
    let ghost tl = view_tags(tags@);
    let tz = extract_timezone_offset(m);
    let n = tags.len();
    let mut i: usize = 0;
    while i < n
        invariant
            0 <= i <= n,
            n == tags@.len(),
            tl == view_tags(tags@),
            opt_offset(tz) == spec_extract_tz(m),
            spec_priority_from(m, tl, now, 0) == spec_priority_from(m, tl, now, i as int),
        decreases n - i,
    {
        let tag = tags[i];
        proof {
            assert(tl[i as int] == tag@);
        }
        let cand: Option<Timestamp> = if crate::text::str_eq(tag, "UserComment") {
            extract_date_from_user_comment(m)
        } else {
            find_and_parse_date(m, tag, tz)
        };
        proof {
            assert(cand == spec_tag_candidate(m, tl[i as int]));
        }
        match cand {
            Some(d) => {
                if is_valid_date(d, now) {
                    return Some(d);
                }
            },
            None => {},
        }
        i = i + 1;
    }
    None
}

/// The priority search takes the first tag in list order whose candidate
/// passes the plausibility filter: earlier tags with no passing candidate
/// are skipped, whatever the order of the list.
pub proof fn lemma_priority_first_passing(
    m: &TagMap,
    tags: Seq<Seq<char>>,
    now: Timestamp,
    i: int,
)
    requires
        0 <= i < tags.len(),
        forall|j: int| 0 <= j < i ==> spec_passing_candidate(m, tags[j], now) is None,
        spec_passing_candidate(m, tags[i], now) is Some,
    ensures
        spec_date_by_priority(m, tags, now) == spec_passing_candidate(m, tags[i], now),
{
    lemma_priority_from_first(m, tags, now, 0, i);
}

proof fn lemma_priority_from_first(
    m: &TagMap,
    tags: Seq<Seq<char>>,
    now: Timestamp,
    lo: int,
    i: int,
)
    requires
        0 <= lo <= i < tags.len(),
        forall|j: int| lo <= j < i ==> spec_passing_candidate(m, tags[j], now) is None,
        spec_passing_candidate(m, tags[i], now) is Some,
    ensures
        spec_priority_from(m, tags, now, lo) == spec_passing_candidate(m, tags[i], now),
    decreases i - lo,
{
    if lo < i {
        lemma_priority_from_first(m, tags, now, lo + 1, i);
    }
}

// ---------------------------------------------------------------------------
// Resolution of both axes
// ---------------------------------------------------------------------------
/// The creation-date tags, in descending trust order.
pub open spec fn creation_tags() -> Seq<Seq<char>> {
    seq![
        "DateTimeOriginal"@,
        "MediaCreateDate"@,
        "CreateDate"@,
        "TrackCreateDate"@,
        "CreationDate"@,
        "ModifyDate"@,
        "MediaModifyDate"@,
        "UserComment"@,
        "TrackModifyDate"@,
        "FileModifyDate"@,
    ]
}

/// The modification-date tags, in descending trust order.
pub open spec fn modify_tags() -> Seq<Seq<char>> {
    seq![
        "ModifyDate"@,
        "UserComment"@,
        "MediaModifyDate"@,
        "TrackModifyDate"@,
        "CreateDate"@,
        "DateTimeOriginal"@,
        "TrackCreateDate"@,
        "MediaCreateDate"@,
        "CreationDate"@,
        "FileModifyDate"@,
    ]
}

/// The creation-date tag list, as an executable value.
pub fn creation_date_tags() -> (r: Vec<&'static str>)
    ensures
        view_tags(r@) == creation_tags(),
{
    let r: Vec<&'static str> = vec![
        "DateTimeOriginal",
        "MediaCreateDate",
        "CreateDate",
        "TrackCreateDate",
        "CreationDate",
        "ModifyDate",
        "MediaModifyDate",
        "UserComment",
        "TrackModifyDate",
        "FileModifyDate",
    ];
    proof {
        assert(view_tags(r@) =~= creation_tags());
    }
    r
}

/// The modification-date tag list, as an executable value.
pub fn modify_date_tags() -> (r: Vec<&'static str>)
    ensures
        view_tags(r@) == modify_tags(),
{
    let r: Vec<&'static str> = vec![
        "ModifyDate",
        "UserComment",
        "MediaModifyDate",
        "TrackModifyDate",
        "CreateDate",
        "DateTimeOriginal",
        "TrackCreateDate",
        "MediaCreateDate",
        "CreationDate",
        "FileModifyDate",
    ];
    proof {
        assert(view_tags(r@) =~= modify_tags());
    }
    r
}

/// Resolves the creation instant of a tag map against the clock value `now`.
pub fn extract_creation_date(m: &TagMap, now: Timestamp) -> (r: Option<Timestamp>)
    ensures
        r == spec_date_by_priority(m, creation_tags(), now),
        r matches Some(d) ==> d.wf() && spec_is_valid_date(d, now),
{
    let tags = creation_date_tags();
    extract_date_by_priority(m, &tags, now)
}

/// Resolves the modification instant of a tag map against the clock value
/// `now`.
pub fn extract_modify_date(m: &TagMap, now: Timestamp) -> (r: Option<Timestamp>)
    ensures
        r == spec_date_by_priority(m, modify_tags(), now),
        r matches Some(d) ==> d.wf() && spec_is_valid_date(d, now),
{
    let tags = modify_date_tags();
    extract_date_by_priority(m, &tags, now)
}

/// Why a file yielded no resolved dates.
#[derive(Debug)]
pub enum ExtractError {
    NoCreationDate,
    NoModifyDate,
    NoMetadata,
    NoExtension,
    ParseMetadata,
    Engine(String),
}

impl ExtractError {
    /// The error's description.
    pub fn message(&self) -> (r: String)
        ensures
            match self {
                ExtractError::NoCreationDate => r@ == "No valid creation date found"@,
                ExtractError::NoModifyDate => r@ == "No valid modification date found"@,
                ExtractError::NoMetadata => r@ == "No metadata result for file"@,
                ExtractError::NoExtension => r@ == "File has no extension"@,
                ExtractError::ParseMetadata => r@ == "Failed to parse metadata: not a JSON object"@,
                ExtractError::Engine(s) => r@ == "Failed to extract metadata: "@ + s@,
            },
    {
        match self {
            ExtractError::NoCreationDate => String::from_str("No valid creation date found"),
            ExtractError::NoModifyDate => String::from_str("No valid modification date found"),
            ExtractError::NoMetadata => String::from_str("No metadata result for file"),
            ExtractError::NoExtension => String::from_str("File has no extension"),
            ExtractError::ParseMetadata => String::from_str(
                "Failed to parse metadata: not a JSON object",
            ),
            ExtractError::Engine(s) => String::from_str("Failed to extract metadata: ").concat(
                s.as_str(),
            ),
        }
    }
}

/// Both resolved instants pass the plausibility filter against `now`.
pub open spec fn dates_valid_at(md: MediaDates, now: Timestamp) -> bool {
    spec_is_valid_date(md.creation_date, now) && spec_is_valid_date(md.modify_date, now)
}

/// Every successful outcome passes the plausibility filter against `now`.
pub open spec fn successes_valid_at(
    r: Seq<(String, Result<MediaDates, ExtractError>)>,
    now: Timestamp,
) -> bool {
    forall|i: int|
        0 <= i < r.len() ==> ((#[trigger] r[i]).1 matches Ok(md) ==> dates_valid_at(md, now))
}

/// What resolution of both axes yields against the clock value `now`.
pub open spec fn spec_resolve_dates(m: &TagMap, now: Timestamp, r: Result<
    MediaDates,
    ExtractError,
>) -> bool {
    match r {
        Ok(md) => spec_date_by_priority(m, creation_tags(), now) == Some(md.creation_date)
            && spec_date_by_priority(m, modify_tags(), now) == Some(md.modify_date),
        Err(ExtractError::NoCreationDate) => spec_date_by_priority(m, creation_tags(), now)
            is None,
        Err(ExtractError::NoModifyDate) => spec_date_by_priority(m, creation_tags(), now) is Some
            && spec_date_by_priority(m, modify_tags(), now) is None,
        Err(_) => false,
    }
}

/// Resolves both axes of a tag map against the clock value `now`: the
/// creation and the modification instant are searched independently, and
/// both must yield a passing candidate.
pub fn resolve_dates(m: &TagMap, now: Timestamp) -> (r: Result<MediaDates, ExtractError>)
    ensures
        spec_resolve_dates(m, now, r),
        r matches Ok(md) ==> md.creation_date.wf() && md.modify_date.wf() && spec_is_valid_date(
            md.creation_date,
            now,
        ) && spec_is_valid_date(md.modify_date, now),
{
    let creation = match extract_creation_date(m, now) {
        Some(d) => d,
        None => {
            return Err(ExtractError::NoCreationDate);
        },
    };
    let modify = match extract_modify_date(m, now) {
        Some(d) => d,
        None => {
            return Err(ExtractError::NoModifyDate);
        },
    };
    Ok(MediaDates { creation_date: creation, modify_date: modify })
}

/// Relies on chrono::Utc::now for the wall clock; of the returned pair only
/// the documented bound on the millisecond remainder is assumed (it can pass
/// 999 during a leap second, never 1999).
#[verifier::external_body]
pub fn now_timestamp() -> (r: (i64, u32))
    ensures
        r.1 < 2000,
{
    let n = chrono::Utc::now();
    (n.timestamp(), n.timestamp_subsec_millis())
}

/// Resolves both axes of a tag map against the wall clock: the outcome is
/// the resolution of the map at some clock reading with a sub-2-second
/// remainder.
pub fn extract_dates_from_metadata(m: &TagMap) -> (r: Result<MediaDates, ExtractError>)
    ensures
        (exists|now: Timestamp| now.millis < 2000 && spec_resolve_dates(m, now, r)),
        r matches Ok(md) ==> md.creation_date.wf() && md.modify_date.wf()
            && away_from_placeholders(md.creation_date) && away_from_placeholders(md.modify_date),
{
    let clock = now_timestamp();
    let now = Timestamp { secs: clock.0, millis: clock.1 };
    let r = resolve_dates(m, now);
    proof {
        assert(now.millis < 2000 && spec_resolve_dates(m, now, r));
    }
    r
}

// ---------------------------------------------------------------------------
// Batch extraction with failure bisection
// ---------------------------------------------------------------------------
#[verifier::external_type_specification]
#[verifier::external_body]
pub struct ExExifTool(exiftool::ExifTool);

#[verifier::external_type_specification]
#[verifier::external_body]
pub struct ExJsonValue(serde_json::Value);

/// Relies on exiftool::ExifTool::json_batch: runs the engine once over the
/// whole batch with group prefixes and embedded extraction requested, and
/// yields one JSON value per file on success, or the engine error's text.
/// Failure is all-or-nothing per call; nothing further is assumed of the
/// outcome, which depends on what is on disk.
#[verifier::external_body]
fn engine_json_batch(et: &mut exiftool::ExifTool, paths: &Vec<String>) -> (r: Result<
    Vec<serde_json::Value>,
    String,
>) {
    match et.json_batch(paths.iter().map(std::path::Path::new), &["-G", "-ee"]) {
        Ok(vals) => Ok(vals),
        Err(e) => Err(format!("{}", e)),
    }
}

/// Relies on serde_json::Value::as_object / as_str / as_array: rebuilds a
/// file's tag map as plain strings, keeping array elements of other JSON
/// types as `None` and values of other JSON types as `Other`; `None` when
/// the value is not a JSON object.
#[verifier::external_body]
fn tag_map_of_value(v: &serde_json::Value) -> (r: Option<TagMap>) {
    let obj = v.as_object()?;
    let mut entries: Vec<(String, TagValue)> = Vec::new();
    for (k, val) in obj {
        let tv = if let Some(s) = val.as_str() {
            TagValue::Text(s.to_string())
        } else if let Some(arr) = val.as_array() {
            TagValue::List(arr.iter().map(|e| e.as_str().map(|s| s.to_string())).collect())
        } else {
            TagValue::Other
        };
        entries.push((k.clone(), tv));
    }
    Some(TagMap { entries })
}

/// What one file's outcome must be, given the tag map the engine produced
/// for it (or `None` when its JSON value was not an object).
pub open spec fn spec_file_outcome(
    tm: Option<TagMap>,
    now: Timestamp,
    r: Result<MediaDates, ExtractError>,
) -> bool {
    match tm {
        Some(m) => spec_resolve_dates(&m, now, r),
        None => r matches Err(ExtractError::ParseMetadata),
    }
}

/// What the `i`th entry of a settled batch must hold: the resolution of the
/// `i`th tag map, or the missing-metadata error where the engine returned
/// fewer values than files.
pub open spec fn spec_batch_entry(
    maps: Seq<Option<TagMap>>,
    now: Timestamp,
    i: int,
    r: Result<MediaDates, ExtractError>,
) -> bool {
    if i < maps.len() {
        spec_file_outcome(maps[i], now, r)
    } else {
        r matches Err(ExtractError::NoMetadata)
    }
}

/// Settles one successfully extracted batch: pairs each path with the
/// resolution of its tag map, in input order. Files beyond the engine's
/// output get the missing-metadata error.
pub fn resolve_batch(paths: &Vec<String>, maps: &Vec<Option<TagMap>>, now: Timestamp) -> (r: Vec<
    (String, Result<MediaDates, ExtractError>),
>)
    ensures
        r@.len() == paths@.len(),
        forall|i: int| 0 <= i < r@.len() ==> (#[trigger] r@[i]).0@ == paths@[i]@,
        forall|i: int|
            0 <= i < r@.len() ==> spec_batch_entry(maps@, now, i, (#[trigger] r@[i]).1),
        forall|i: int|
            0 <= i < r@.len() ==> ((#[trigger] r@[i]).1 matches Ok(md) ==> md.creation_date.wf()
                && md.modify_date.wf() && spec_is_valid_date(md.creation_date, now)
                && spec_is_valid_date(md.modify_date, now)),
{
    let n = paths.len();
    let mut out: Vec<(String, Result<MediaDates, ExtractError>)> = Vec::new();
    let mut i: usize = 0;
    while i < n
        invariant
            0 <= i <= n,
            n == paths@.len(),
            out@.len() == i,
            forall|j: int| 0 <= j < i ==> (#[trigger] out@[j]).0@ == paths@[j]@,
            forall|j: int|
                0 <= j < i ==> spec_batch_entry(maps@, now, j, (#[trigger] out@[j]).1),
            forall|j: int|
                0 <= j < i ==> ((#[trigger] out@[j]).1 matches Ok(md) ==> md.creation_date.wf()
                    && md.modify_date.wf() && spec_is_valid_date(md.creation_date, now)
                    && spec_is_valid_date(md.modify_date, now)),
        decreases n - i,
    {
        let res: Result<MediaDates, ExtractError> = if i < maps.len() {
            match &maps[i] {
                Some(m) => resolve_dates(m, now),
                None => Err(ExtractError::ParseMetadata),
            }
        } else {
            Err(ExtractError::NoMetadata)
        };
        out.push((paths[i].clone(), res));
        i = i + 1;
    }
    out
}

/// Clones the paths of the range `lo..hi`.
fn copy_range(paths: &Vec<String>, lo: usize, hi: usize) -> (r: Vec<String>)
    requires
        lo <= hi <= paths@.len(),
    ensures
        r@.len() == hi - lo,
        forall|k: int| 0 <= k < hi - lo ==> (#[trigger] r@[k])@ == paths@[lo + k]@,
{
    let mut r: Vec<String> = Vec::new();
    let mut i: usize = lo;
    while i < hi
        invariant
            lo <= i <= hi <= paths@.len(),
            r@.len() == i - lo,
            forall|k: int| 0 <= k < i - lo ==> (#[trigger] r@[k])@ == paths@[lo + k]@,
        decreases hi - i,
    {
        r.push(paths[i].clone());
        i = i + 1;
    }
    r
}

/// Extracts the range `lo..hi` of `paths`: one engine call for the whole
/// range; on engine failure a single file becomes a terminal per-file
/// failure, a larger range is split in half and each half retried, so that
/// every path still yields exactly one outcome, in input order.
fn batch_adaptive(
    et: &mut exiftool::ExifTool,
    paths: &Vec<String>,
    lo: usize,
    hi: usize,
    now: Timestamp,
    out: &mut Vec<(String, Result<MediaDates, ExtractError>)>,
)
    requires
        lo <= hi <= paths@.len(),
    ensures
        final(out)@.len() == old(out)@.len() + (hi - lo),
        forall|i: int| 0 <= i < old(out)@.len() ==> final(out)@[i] == old(out)@[i],
        forall|k: int|
            0 <= k < hi - lo ==> (#[trigger] final(out)@[old(out)@.len() + k]).0@ == paths@[lo
                + k]@,
        forall|k: int|
            0 <= k < hi - lo ==> ((#[trigger] final(out)@[old(out)@.len() + k]).1 matches Ok(md)
                ==> md.creation_date.wf() && md.modify_date.wf() && spec_is_valid_date(
                    md.creation_date,
                    now,
                ) && spec_is_valid_date(md.modify_date, now)),
    decreases hi - lo,
{
    if lo == hi {
        return ;
    }
    let batch = copy_range(paths, lo, hi);
    match engine_json_batch(et, &batch) {
        Ok(vals) => {
            let n_vals = vals.len();
            let mut maps: Vec<Option<TagMap>> = Vec::new();
            let mut k: usize = 0;
            while k < n_vals
                invariant
                    0 <= k <= n_vals,
                    n_vals == vals@.len(),
                    maps@.len() == k,
                decreases n_vals - k,
            {
                maps.push(tag_map_of_value(&vals[k]));
                k = k + 1;
            }
            let mut settled = resolve_batch(&batch, &maps, now);
            let ghost settled_snap = settled@;
            out.append(&mut settled);
            proof {
                assert forall|k: int| 0 <= k < hi - lo implies (#[trigger] out@[old(out)@.len()
                    + k]).0@ == paths@[lo + k]@ && (out@[old(out)@.len() + k].1 matches Ok(md)
                    ==> md.creation_date.wf() && md.modify_date.wf() && spec_is_valid_date(
                    md.creation_date,
                    now,
                ) && spec_is_valid_date(md.modify_date, now)) by {
                    assert(out@[old(out)@.len() + k] == settled_snap[k]);
                    assert(batch@[k]@ == paths@[lo + k]@);
                }
            }
        },
        Err(msg) => {
            if hi - lo == 1 {
                out.push((paths[lo].clone(), Err(ExtractError::Engine(msg))));
            } else {
                let mid = lo + (hi - lo) / 2;
                assert(lo < mid < hi) by (nonlinear_arith)
                    requires
                        mid == lo + (hi - lo) / 2,
                        hi - lo >= 2,
                ;
                batch_adaptive(et, paths, lo, mid, now, out);
                let ghost out1 = out@;
                batch_adaptive(et, paths, mid, hi, now, out);
                proof {
                    assert forall|k: int| 0 <= k < hi - lo implies (#[trigger] out@[old(
                        out,
                    )@.len() + k]).0@ == paths@[lo + k]@ && (out@[old(out)@.len() + k].1 matches Ok(
                        md,
                    ) ==> md.creation_date.wf() && md.modify_date.wf() && spec_is_valid_date(
                        md.creation_date,
                        now,
                    ) && spec_is_valid_date(md.modify_date, now)) by {
                        if k < mid - lo {
                            assert(out@[old(out)@.len() + k] == out1[old(out)@.len() + k]);
                            assert(out1[old(out)@.len() + k].0@ == paths@[lo + k]@);
                        } else {
                            assert(out@[out1.len() + (k - (mid - lo))].0@ == paths@[mid + (k - (mid
                                - lo))]@);
                            assert(old(out)@.len() + k == out1.len() + (k - (mid - lo)));
                        }
                    }
                }
            }
        },
    }
}

/// Extracts dates for a batch of files against the clock value `now`:
/// exactly one outcome per input path, in input order, whatever the engine
/// does. Batch-level engine failures are bisected until they are isolated
/// to single files; they never surface as batch failures.
pub fn extract_dates_batch_at(
    et: &mut exiftool::ExifTool,
    file_paths: &Vec<String>,
    now: Timestamp,
) -> (r: Vec<(String, Result<MediaDates, ExtractError>)>)
    ensures
        r@.len() == file_paths@.len(),
        forall|i: int| 0 <= i < r@.len() ==> (#[trigger] r@[i]).0@ == file_paths@[i]@,
        forall|i: int|
            0 <= i < r@.len() ==> ((#[trigger] r@[i]).1 matches Ok(md) ==> md.creation_date.wf()
                && md.modify_date.wf() && spec_is_valid_date(md.creation_date, now)
                && spec_is_valid_date(md.modify_date, now)),
{
    let mut out: Vec<(String, Result<MediaDates, ExtractError>)> = Vec::new();
    let n = file_paths.len();
    batch_adaptive(et, file_paths, 0, n, now, &mut out);
    proof {
        assert forall|i: int| 0 <= i < out@.len() implies (#[trigger] out@[i]).0@
            == file_paths@[i]@ && (out@[i].1 matches Ok(md) ==> md.creation_date.wf()
            && md.modify_date.wf() && spec_is_valid_date(md.creation_date, now)
            && spec_is_valid_date(md.modify_date, now)) by {
            assert(out@[0 + i].0@ == file_paths@[0 + i]@);
            assert(out@[0 + i].1 matches Ok(md) ==> md.creation_date.wf() && md.modify_date.wf()
                && spec_is_valid_date(md.creation_date, now) && spec_is_valid_date(
                md.modify_date,
                now,
            ));
        }
    }
    out
}

/// Extracts dates for a batch of files against the wall clock: exactly one
/// outcome per input path, in input order.
pub fn extract_dates_batch(et: &mut exiftool::ExifTool, file_paths: &Vec<String>) -> (r: Vec<
    (String, Result<MediaDates, ExtractError>),
>)
    ensures
        r@.len() == file_paths@.len(),
        forall|i: int| 0 <= i < r@.len() ==> (#[trigger] r@[i]).0@ == file_paths@[i]@,
        forall|i: int|
            0 <= i < r@.len() ==> ((#[trigger] r@[i]).1 matches Ok(md) ==> md.creation_date.wf()
                && md.modify_date.wf() && away_from_placeholders(md.creation_date)
                && away_from_placeholders(md.modify_date)),
        (exists|now: Timestamp| now.millis < 2000 && successes_valid_at(r@, now)),
{
    let clock = now_timestamp();
    let now = Timestamp { secs: clock.0, millis: clock.1 };
    let out = extract_dates_batch_at(et, file_paths, now);
    proof {
        assert(now.millis < 2000 && successes_valid_at(out@, now));
    }
    out
}

/// Relies on exiftool::ExifTool::new and json_execute: starts one engine
/// process, runs it over the single file — with embedded extraction when
/// asked — and yields the file's tag map; the outcome depends on the machine
/// and on what is on disk.
#[verifier::external_body]
fn engine_single(path: &str, extract_embedded: bool) -> (r: Result<TagMap, String>) {
    let et = exiftool::ExifTool::new().map_err(|e| format!("{}", e))?;
    let args: Vec<&str> = if extract_embedded {
        vec!["-G", "-ee", path]
    } else {
        vec!["-G", path]
    };
    let v = et.json_execute(&args).map_err(|e| format!("{}", e))?;
    match v.as_array().and_then(|a| a.first()).and_then(tag_map_of_value) {
        Some(m) => Ok(m),
        None => Err("No metadata returned from exiftool".to_string()),
    }
}

/// Extracts the resolved dates of one file: a fast engine pass first and,
/// when either axis stays unresolved, a second pass with embedded
/// extraction, whose resolution decides.
pub fn extract_dates(file_path: &str) -> (r: Result<MediaDates, ExtractError>)
    ensures
        r matches Ok(md) ==> md.creation_date.wf() && md.modify_date.wf()
            && away_from_placeholders(md.creation_date) && away_from_placeholders(md.modify_date)
            && (exists|now: Timestamp| now.millis < 2000 && dates_valid_at(md, now)),
{
    let clock = now_timestamp();
    let now = Timestamp { secs: clock.0, millis: clock.1 };
    let m = match engine_single(file_path, false) {
        Ok(m) => m,
        Err(e) => {
            return Err(ExtractError::Engine(e));
        },
    };
    let creation = extract_creation_date(&m, now);
    let modify = extract_modify_date(&m, now);
    match (creation, modify) {
        (Some(c), Some(mo)) => {
            let md = MediaDates { creation_date: c, modify_date: mo };
            proof {
                assert(now.millis < 2000 && dates_valid_at(md, now));
            }
            Ok(md)
        },
        _ => {
            let m2 = match engine_single(file_path, true) {
                Ok(m2) => m2,
                Err(e) => {
                    return Err(ExtractError::Engine(e));
                },
            };
            let r = resolve_dates(&m2, now);
            proof {
                if let Ok(md) = r {
                    assert(now.millis < 2000 && dates_valid_at(md, now));
                }
            }
            r
        },
    }
}

// ---------------------------------------------------------------------------
// The bisection protocol, abstractly
// ---------------------------------------------------------------------------
/// An engine that fails exactly on batches containing a bad file succeeds
/// on `batch`.
pub open spec fn batch_clean(batch: Seq<Seq<char>>, bad: Set<Seq<char>>) -> bool {
    forall|i: int| 0 <= i < batch.len() ==> !bad.contains(batch[i])
}

/// The per-file success flags the bisection protocol yields on `batch`,
/// against an engine that fails a call exactly when the batch holds a bad
/// file: a clean batch succeeds wholesale, a failing single file is a
/// terminal failure, and a failing larger batch is split in half and each
/// half retried.
pub open spec fn spec_bisect_flags(batch: Seq<Seq<char>>, bad: Set<Seq<char>>) -> Seq<bool>
    decreases batch.len(),
{
    if batch.len() == 0 {
        Seq::empty()
    } else if batch_clean(batch, bad) {
        Seq::new(batch.len(), |i: int| true)
    } else if batch.len() == 1 {
        seq![false]
    } else {
        let mid = batch.len() as int / 2;
        spec_bisect_flags(batch.take(mid), bad) + spec_bisect_flags(batch.skip(mid), bad)
    }
}

/// Bisection localizes every failure: against an engine that fails exactly
/// on batches holding a bad file, each file fails exactly if it is bad —
/// in particular, one bad file among N otherwise-valid files still yields
/// N - 1 successes and exactly one failure, whatever N is.
pub proof fn lemma_bisection_isolates(batch: Seq<Seq<char>>, bad: Set<Seq<char>>)
    ensures
        spec_bisect_flags(batch, bad).len() == batch.len(),
        forall|i: int|
            0 <= i < batch.len() ==> spec_bisect_flags(batch, bad)[i] == !bad.contains(batch[i]),
    decreases batch.len(),
{
    let flags = spec_bisect_flags(batch, bad);
    if batch.len() == 0 {
    } else if batch_clean(batch, bad) {
    } else if batch.len() == 1 {
        assert(bad.contains(batch[0])) by {
            assert(!batch_clean(batch, bad));
        }
    } else {
        let mid = batch.len() as int / 2;
        let left = batch.take(mid);
        let right = batch.skip(mid);
        lemma_bisection_isolates(left, bad);
        lemma_bisection_isolates(right, bad);
        assert forall|i: int| 0 <= i < batch.len() implies flags[i] == !bad.contains(
            batch[i],
        ) by {
            if i < mid {
                assert(left[i] == batch[i]);
            } else {
                assert(right[i - mid] == batch[i]);
            }
        }
    }
}

} // verus!
