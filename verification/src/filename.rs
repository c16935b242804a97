//! Target filenames: `{creation} {modification} {counter}.{EXT}` with each
//! timestamp rendered as `YYYY-MM-DD_HH.mm.ss.mmm` in UTC, and the collision
//! walk that picks the counter.
use crate::metadata::MediaDates;
use crate::text::{dec2, dec3, dec4, dec_str, push_dec, push_dec2, push_dec3, push_dec4};
use crate::timestamp::{
    civil_of_secs, lemma_civil_of_secs, lemma_civil_unique, secs_to_civil, spec_civil_secs,
    valid_civil, CivilTime, Timestamp,
};
use vstd::prelude::*;

verus! {

/// The rendering `YYYY-MM-DD_HH.mm.ss.mmm` of civil fields and milliseconds.
pub open spec fn spec_format_civil(c: CivilTime, ms: int) -> Seq<char> {
    dec4(c.year as int) + seq!['-'] + dec2(c.month as int) + seq!['-'] + dec2(c.day as int)
        + seq!['_'] + dec2(c.hour as int) + seq!['.'] + dec2(c.minute as int) + seq!['.'] + dec2(
        c.second as int,
    ) + seq!['.'] + dec3(ms)
}

/// The rendering of an instant: its civil decomposition, shown to
/// millisecond precision.
pub open spec fn spec_format_date(ts: Timestamp) -> Seq<char> {
    spec_format_civil(civil_of_secs(ts.secs as int), ts.millis as int)
}

/// Renders an instant as `YYYY-MM-DD_HH.mm.ss.mmm`, in UTC.
pub fn format_date(ts: &Timestamp) -> (r: String)
    requires
        ts.wf(),
    ensures
        r@ == spec_format_date(*ts),
{
    let c = secs_to_civil(ts.secs);
    proof {
        lemma_civil_of_secs(ts.secs as int);
        lemma_civil_unique(c, civil_of_secs(ts.secs as int));
        reveal_strlit("-");
        reveal_strlit("_");
        reveal_strlit(".");
    }
    let mut out = String::new();
    push_dec4(&mut out, c.year as u64);
    out.append("-");
    push_dec2(&mut out, c.month as u64);
    out.append("-");
    push_dec2(&mut out, c.day as u64);
    out.append("_");
    push_dec2(&mut out, c.hour as u64);
    out.append(".");
    push_dec2(&mut out, c.minute as u64);
    out.append(".");
    push_dec2(&mut out, c.second as u64);
    out.append(".");
    push_dec3(&mut out, ts.millis as u64);
    proof {
        assert(out@ =~= spec_format_date(*ts));
    }
    out
}

/// The Unicode uppercase mapping of `s`; a function of the characters alone.
pub uninterp spec fn upper_of(s: Seq<char>) -> Seq<char>;

/// Relies on str::to_uppercase: the Unicode uppercase equivalent of the
/// string; an empty string stays empty.
#[verifier::external_body]
fn to_upper(s: &str) -> (r: String)
    ensures
        r@ == upper_of(s@),
        s@.len() == 0 ==> r@.len() == 0,
{
    s.to_uppercase()
}

/// The normalized extension: uppercased, with `JPEG` collapsed to `JPG`.
pub open spec fn spec_normalize_extension(e: Seq<char>) -> Seq<char> {
    if upper_of(e) == "JPEG"@ {
        "JPG"@
    } else {
        upper_of(e)
    }
}

/// Normalizes a file extension: uppercase, with the single rewrite
/// `JPEG` to `JPG`.
pub fn normalize_extension(ext: &str) -> (r: String)
    ensures
        r@ == spec_normalize_extension(ext@),
{
    let upper = to_upper(ext);
    if crate::text::string_eq_str(&upper, "JPEG") {
        String::from_str("JPG")
    } else {
        upper
    }
}

/// The greatest index of `s` holding `c`, if any.
pub open spec fn rfind(s: Seq<char>, c: char) -> Option<int>
    decreases s.len(),
{
    if s.len() == 0 {
        None
    } else if s.last() == c {
        Some(s.len() - 1)
    } else {
        rfind(s.drop_last(), c)
    }
}

/// Finds the greatest index in `lo..` holding `c`, if any.
pub(crate) fn rfind_char_from(s: &str, c: char, lo: usize) -> (r: Option<usize>)
    requires
        lo <= s@.len(),
        s@.len() <= usize::MAX,
    ensures
        match r {
            Some(j) => lo <= j < s@.len() && rfind(s@.skip(lo as int), c) == Some(j - lo),
            None => rfind(s@.skip(lo as int), c) is None,
        },
{
    let ghost t = s@.skip(lo as int);
    let n = s.unicode_len();
    proof {
        assert(t.take(n - lo) =~= t);
    }
    let mut i: usize = n;
    while i > lo
        invariant
            lo <= i <= n,
            n == s@.len(),
            t == s@.skip(lo as int),
            rfind(t, c) == rfind(t.take(i - lo), c),
        decreases i,
    {
        let ch = s.get_char(i - 1);
        proof {
            assert(t[i - 1 - lo] == s@[i - 1]);
            assert(t.take(i - lo).last() == t[i - 1 - lo]);
        }
        if ch == c {
            proof {
                assert(rfind(t.take(i - lo), c) == Some(i - 1 - lo));
            }
            return Some(i - 1);
        }
        proof {
            assert(t.take(i - lo).drop_last() =~= t.take(i - 1 - lo));
        }
        i = i - 1;
    }
    proof {
        assert(t.take(0) =~= Seq::<char>::empty());
    }
    None
}

/// The extension of a path: in the part after the last `/`, the part after
/// the last `.`, provided that dot is not the name's first character.
pub open spec fn spec_get_extension(p: Seq<char>) -> Option<Seq<char>> {
    let start: int = match rfind(p, '/') {
        Some(i) => i + 1,
        None => 0,
    };
    let name = p.skip(start);
    match rfind(name, '.') {
        None => None,
        Some(j) => if j == 0 {
            None
        } else {
            Some(name.skip(j + 1))
        },
    }
}

/// The extension of a path, if it has one.
pub fn get_extension(path: &str) -> (r: Option<String>)
    ensures
        r is Some <==> spec_get_extension(path@) is Some,
        r matches Some(e) ==> spec_get_extension(path@) == Some(e@),
{
    let n = path.unicode_len();
    proof {
        assert(path@.skip(0) =~= path@);
    }
    let start: usize = match rfind_char_from(path, '/', 0) {
        Some(i) => i + 1,
        None => 0,
    };
    let ghost name = path@.skip(start as int);
    match rfind_char_from(path, '.', start) {
        None => None,
        Some(j) => {
            if j == start {
                None
            } else {
                let e = path.substring_char(j + 1, n);
                proof {
                    assert(name.skip(j + 1 - start) =~= path@.subrange(j + 1, n as int));
                }
                Some(e.to_owned())
            }
        },
    }
}

/// The generated filename for a counter value:
/// `{creation} {modification} {counter}.{EXT}`.
pub open spec fn spec_generate_filename(
    dates: MediaDates,
    ext: Seq<char>,
    counter: int,
) -> Seq<char> {
    spec_format_date(dates.creation_date) + seq![' '] + spec_format_date(dates.modify_date)
        + seq![' '] + dec_str(counter) + seq!['.'] + spec_normalize_extension(ext)
}

/// Renders the target filename of a resolved date pair, an extension and a
/// collision counter.
pub fn generate_filename(dates: &MediaDates, original_extension: &str, counter: u32) -> (r: String)
    requires
        dates.creation_date.wf(),
        dates.modify_date.wf(),
    ensures
        r@ == spec_generate_filename(*dates, original_extension@, counter as int),
{
    proof {
        reveal_strlit(" ");
        reveal_strlit(".");
    }
    let mut out = format_date(&dates.creation_date);
    out.append(" ");
    let modification = format_date(&dates.modify_date);
    out.append(modification.as_str());
    out.append(" ");
    push_dec(&mut out, counter as u64);
    out.append(".");
    let ext = normalize_extension(original_extension);
    out.append(ext.as_str());
    proof {
        assert(out@ =~= spec_generate_filename(*dates, original_extension@, counter as int));
    }
    out
}

/// The filename base shared by all counter values:
/// `{creation} {modification}.{EXT}`.
pub open spec fn spec_generate_filename_without_counter(
    dates: MediaDates,
    ext: Seq<char>,
) -> Seq<char> {
    spec_format_date(dates.creation_date) + seq![' '] + spec_format_date(dates.modify_date)
        + seq!['.'] + spec_normalize_extension(ext)
}

/// Renders the filename base that a counter is appended to.
pub fn generate_filename_without_counter(dates: &MediaDates, original_extension: &str) -> (r:
    String)
    requires
        dates.creation_date.wf(),
        dates.modify_date.wf(),
    ensures
        r@ == spec_generate_filename_without_counter(*dates, original_extension@),
{
    proof {
        reveal_strlit(" ");
        reveal_strlit(".");
    }
    let mut out = format_date(&dates.creation_date);
    out.append(" ");
    let modification = format_date(&dates.modify_date);
    out.append(modification.as_str());
    out.append(".");
    let ext = normalize_extension(original_extension);
    out.append(ext.as_str());
    proof {
        assert(out@ =~= spec_generate_filename_without_counter(*dates, original_extension@));
    }
    out
}

/// The collision walk could not end below the safety ceiling.
#[derive(Debug, Clone, Copy, PartialEq, Eq, Structural)]
pub enum FilenameError {
    TooManyCollisions,
}

impl FilenameError {
    /// The error's description.
    pub fn message(&self) -> (r: String)
        ensures
            r@ == "Too many filename collisions for the same date pair"@,
    {
        String::from_str("Too many filename collisions for the same date pair")
    }
}

/// The spec-level image of the optional content to compare against.
pub open spec fn opt_bytes(o: Option<&Vec<u8>>) -> Option<Seq<u8>> {
    match o {
        Some(c) => Some(c@),
        None => None,
    }
}

/// The counter at which the collision walk, starting at `k`, stops: the
/// first counter whose slot is free, or whose file already holds `content`;
/// `None` when the walk passes the safety ceiling of 10000. Slot `k` is
/// occupied exactly when `k <= occ.len()`, holding `occ[k - 1]`.
pub open spec fn spec_walk(occ: Seq<Seq<u8>>, content: Option<Seq<u8>>, k: int) -> Option<int>
    decreases 10001 - k,
{
    if k > 10000 {
        None
    } else if k > occ.len() {
        Some(k)
    } else if content matches Some(c) && occ[k - 1] == c {
        Some(k)
    } else {
        spec_walk(occ, content, k + 1)
    }
}

/// The counter the collision walk selects, starting at 1.
pub open spec fn spec_collision_counter(occ: Seq<Seq<u8>>, content: Option<Seq<u8>>) -> Option<
    int,
> {
    spec_walk(occ, content, 1)
}

/// Walks the counters from 1 upward against a model of the files already
/// occupying this filename base — `occupied[i]` is the content of the file
/// at counter `i + 1` — and returns the generated filename and counter of
/// the first free slot, or of the first slot whose content equals
/// `existing_content`. Fails past 10000 attempts.
pub fn find_available_filename(
    occupied: &Vec<Vec<u8>>,
    dates: &MediaDates,
    original_extension: &str,
    existing_content: Option<&Vec<u8>>,
) -> (r: Result<(String, u32), FilenameError>)
    requires
        dates.creation_date.wf(),
        dates.modify_date.wf(),
    ensures
        match r {
            Ok((name, counter)) => {
                &&& spec_collision_counter(occupied.deep_view(), opt_bytes(existing_content))
                    == Some(counter as int)
                &&& name@ == spec_generate_filename(
                    *dates,
                    original_extension@,
                    counter as int,
                )
                &&& 1 <= counter <= 10000
            },
            Err(_) => spec_collision_counter(occupied.deep_view(), opt_bytes(existing_content))
                is None,
        },
{
    let ghost occ = occupied.deep_view();
    let ghost cnt = opt_bytes(existing_content);
    let mut counter: u32 = 1;
    loop
        invariant
            1 <= counter <= 10001,
            occ == occupied.deep_view(),
            cnt == opt_bytes(existing_content),
            dates.creation_date.wf(),
            dates.modify_date.wf(),
            spec_walk(occ, cnt, 1) == spec_walk(occ, cnt, counter as int),
        decreases 10001 - counter,
    {
        if counter > 10000 {
            return Err(FilenameError::TooManyCollisions);
        }
        if counter as usize > occupied.len() {
            let name = generate_filename(dates, original_extension, counter);
            return Ok((name, counter));
        }
        proof {
            assert(occ[counter - 1] == occupied@[counter - 1]@);
        }
        match existing_content {
            Some(c) => {
                if crate::text::bytes_eq(&occupied[(counter - 1) as usize], c) {
                    let name = generate_filename(dates, original_extension, counter);
                    return Ok((name, counter));
                }
            },
            None => {},
        }
        counter = counter + 1;
    }
}

// ---------------------------------------------------------------------------
// Round trip: parsing then formatting keeps the instant
// ---------------------------------------------------------------------------
/// Parsing a timestamp string — with or without milliseconds and zone —
/// and formatting the result reproduces the same UTC instant to millisecond
/// precision: the civil fields the formatted string shows denote exactly
/// the parsed instant, and its fraction shows the parsed milliseconds.
pub proof fn lemma_parse_then_format_same_instant(s: Seq<char>, fb: Option<int>, ts: Timestamp)
    requires
        crate::metadata::spec_parse_exif(s, fb) == Some(ts),
    ensures
        valid_civil(civil_of_secs(ts.secs as int)),
        spec_civil_secs(civil_of_secs(ts.secs as int)) == ts.secs as int,
        spec_format_date(ts) == spec_format_civil(civil_of_secs(ts.secs as int), ts.millis as int),
{
    lemma_civil_of_secs(ts.secs as int);
}

/// A timestamp string with no zone suffix, read as UTC, round-trips
/// exactly: the formatted string shows the very civil fields the input
/// spelled.
pub proof fn lemma_parse_format_fields(s: Seq<char>, ts: Timestamp)
    requires
        crate::metadata::spec_parse_exif(s, None) == Some(ts),
        crate::metadata::frac_zone_of(s.skip(19)) matches Some(p) && p.1 is None,
    ensures
        civil_of_secs(ts.secs as int) == crate::metadata::civil_fields_of(s),
        spec_format_date(ts) == spec_format_civil(
            crate::metadata::civil_fields_of(s),
            ts.millis as int,
        ),
{
    lemma_civil_of_secs(ts.secs as int);
    lemma_civil_unique(civil_of_secs(ts.secs as int), crate::metadata::civil_fields_of(s));
}

} // verus!
