use collect_media::filename::format_date;
use collect_media::metadata::{
    extract_creation_date, extract_date_by_priority, extract_date_from_user_comment,
    extract_modify_date, extract_timezone_offset, find_and_parse_date, find_mode_or_earliest,
    is_valid_date, parse_date_string, parse_timezone_offset, resolve_batch, resolve_dates,
    ExtractError, MediaDates, TagMap, TagValue,
};
use collect_media::timestamp::{timestamp_from_civil, CivilTime, Timestamp};

fn civil(y: u32, mo: u32, d: u32, h: u32, mi: u32, s: u32) -> CivilTime {
    CivilTime { year: y, month: mo, day: d, hour: h, minute: mi, second: s }
}

fn ts(y: u32, mo: u32, d: u32, h: u32, mi: u32, s: u32, ms: u32) -> Timestamp {
    timestamp_from_civil(civil(y, mo, d, h, mi, s), ms).unwrap()
}

fn now_2026() -> Timestamp {
    ts(2026, 1, 1, 0, 0, 0, 0)
}

fn map_of(entries: Vec<(&str, TagValue)>) -> TagMap {
    TagMap { entries: entries.into_iter().map(|(k, v)| (k.to_string(), v)).collect() }
}

fn text(s: &str) -> TagValue {
    TagValue::Text(s.to_string())
}

#[test]
fn test_timezone_offset_parsing() {
    assert_eq!(parse_timezone_offset("+08:00"), Some(8 * 3600));
    assert_eq!(parse_timezone_offset("-05:00"), Some(-5 * 3600));
    assert_eq!(parse_timezone_offset("+00:00"), Some(0));
}

#[test]
fn test_timezone_offset_rejects() {
    assert_eq!(parse_timezone_offset("+0800"), None); // six characters required
    assert_eq!(parse_timezone_offset("08:00"), None);
    assert_eq!(parse_timezone_offset("+8:00x"), None);
    assert_eq!(parse_timezone_offset(""), None);
}

#[test]
fn test_parse_plain() {
    let d = parse_date_string("2025:08:10 03:43:16", None).unwrap();
    assert_eq!(d, ts(2025, 8, 10, 3, 43, 16, 0));
}

#[test]
fn test_parse_with_millis() {
    let d = parse_date_string("2025:08:10 03:43:16.123", None).unwrap();
    assert_eq!(d, ts(2025, 8, 10, 3, 43, 16, 123));
}

#[test]
fn test_parse_with_zone() {
    // An inline zone shifts the instant to UTC.
    let d = parse_date_string("2025:08:10 03:43:16+02:00", None).unwrap();
    assert_eq!(d, ts(2025, 8, 10, 1, 43, 16, 0));
    let d2 = parse_date_string("2025:08:10 03:43:16.123-0500", None).unwrap();
    assert_eq!(d2, ts(2025, 8, 10, 8, 43, 16, 123));
}

#[test]
fn test_parse_fallback_offset() {
    // Without an inline zone the fallback offset applies.
    let d = parse_date_string("2025:08:10 03:43:16", Some(2 * 3600)).unwrap();
    assert_eq!(d, ts(2025, 8, 10, 1, 43, 16, 0));
    // With an inline zone the fallback is ignored.
    let d2 = parse_date_string("2025:08:10 03:43:16+00:00", Some(2 * 3600)).unwrap();
    assert_eq!(d2, ts(2025, 8, 10, 3, 43, 16, 0));
}

#[test]
fn test_parse_rejects_malformed() {
    assert_eq!(parse_date_string("2025-08-10 03:43:16", None), None);
    assert_eq!(parse_date_string("2025:13:10 03:43:16", None), None);
    assert_eq!(parse_date_string("2025:02:30 03:43:16", None), None);
    assert_eq!(parse_date_string("2025:08:10 24:00:00", None), None);
    assert_eq!(parse_date_string("2025:08:10 03:43", None), None);
    assert_eq!(parse_date_string("2025:08:10 03:43:16 trailing", None), None);
}

#[test]
fn test_parse_format_round_trip() {
    // Parsing then formatting reproduces the same UTC instant to the
    // millisecond, with and without milliseconds and zone.
    let cases = [
        ("2025:08:10 03:43:16", "2025-08-10_03.43.16.000"),
        ("2025:08:10 03:43:16.123", "2025-08-10_03.43.16.123"),
        ("2025:08:10 03:43:16.123+02:00", "2025-08-10_01.43.16.123"),
        ("2025:12:31 23:30:00-05:00", "2026-01-01_04.30.00.000"),
    ];
    for (input, shown) in cases {
        let d = parse_date_string(input, None).unwrap();
        assert_eq!(format_date(&d), shown);
    }
}

#[test]
fn test_priority_order_picks_first_passing() {
    let m = map_of(vec![
        ("CreateDate", text("2020:01:01 10:00:00")),
        ("DateTimeOriginal", text("2021:05:05 05:05:05")),
    ]);
    let now = now_2026();
    // DateTimeOriginal outranks CreateDate for the creation axis.
    assert_eq!(extract_creation_date(&m, now), Some(ts(2021, 5, 5, 5, 5, 5, 0)));
    // Reordering the priority list changes the chosen source.
    let reordered: Vec<&str> = vec!["CreateDate", "DateTimeOriginal"];
    assert_eq!(extract_date_by_priority(&m, &reordered, now), Some(ts(2020, 1, 1, 10, 0, 0, 0)));
}

#[test]
fn test_priority_skips_failing_candidates() {
    // The first tag holds an implausible (epoch) date, so the next one wins.
    let m = map_of(vec![
        ("DateTimeOriginal", text("1970:01:01 00:00:00")),
        ("CreateDate", text("2022:02:02 02:02:02")),
    ]);
    assert_eq!(extract_creation_date(&m, now_2026()), Some(ts(2022, 2, 2, 2, 2, 2, 0)));
}

#[test]
fn test_group_prefixed_tags_found() {
    let m = map_of(vec![("QuickTime:CreateDate", text("2023:03:03 03:03:03"))]);
    assert_eq!(
        find_and_parse_date(&m, "CreateDate", None),
        Some(ts(2023, 3, 3, 3, 3, 3, 0))
    );
}

#[test]
fn test_mode_majority_wins_regardless_of_position() {
    let a = ts(2021, 1, 1, 0, 0, 0, 0);
    let b = ts(2022, 2, 2, 0, 0, 0, 0);
    let dates = vec![b, a, b];
    assert_eq!(find_mode_or_earliest(&dates), b);
    let dates2 = vec![b, b, a];
    assert_eq!(find_mode_or_earliest(&dates2), b);
}

#[test]
fn test_mode_tie_takes_earliest() {
    let a = ts(2021, 1, 1, 0, 0, 0, 0);
    let b = ts(2022, 2, 2, 0, 0, 0, 0);
    assert_eq!(find_mode_or_earliest(&vec![b, a]), a);
    assert_eq!(find_mode_or_earliest(&vec![a, b]), a);
}

#[test]
fn test_array_value_takes_mode() {
    let m = map_of(vec![(
        "TrackCreateDate",
        TagValue::List(vec![
            Some("2020:01:01 00:00:00".to_string()),
            Some("2021:06:06 06:06:06".to_string()),
            Some("2021:06:06 06:06:06".to_string()),
            None,
        ]),
    )]);
    assert_eq!(
        find_and_parse_date(&m, "TrackCreateDate", None),
        Some(ts(2021, 6, 6, 6, 6, 6, 0))
    );
}

#[test]
fn test_zone_offset_tag_applies_to_naive_dates() {
    let m = map_of(vec![
        ("CreateDate", text("2020:06:01 12:00:00")),
        ("OffsetTimeOriginal", text("+02:00")),
    ]);
    assert_eq!(extract_timezone_offset(&m), Some(7200));
    assert_eq!(extract_creation_date(&m, now_2026()), Some(ts(2020, 6, 1, 10, 0, 0, 0)));
}

#[test]
fn test_user_comment_embedded_date() {
    let m = map_of(vec![(
        "UserComment",
        text("{\"orgFileModifiedDate\":\"2023:05:01 10:00:00\"}"),
    )]);
    assert_eq!(extract_date_from_user_comment(&m), Some(ts(2023, 5, 1, 10, 0, 0, 0)));
    // Through the resolver: the only usable tag is the embedded one.
    assert_eq!(extract_creation_date(&m, now_2026()), Some(ts(2023, 5, 1, 10, 0, 0, 0)));
    // A comment that is not JSON yields nothing.
    let m2 = map_of(vec![("UserComment", text("just a note"))]);
    assert_eq!(extract_date_from_user_comment(&m2), None);
}

#[test]
fn test_scenario_single_tag_both_axes() {
    let m = map_of(vec![("DateTimeOriginal", text("2025:08:10 03:43:16"))]);
    let md = resolve_dates(&m, now_2026()).unwrap();
    let expected = ts(2025, 8, 10, 3, 43, 16, 0);
    assert_eq!(md.creation_date, expected);
    assert_eq!(md.modify_date, expected);
    let name = collect_media::filename::generate_filename(&md, "jpg", 1);
    assert_eq!(name, "2025-08-10_03.43.16.000 2025-08-10_03.43.16.000 1.JPG");
}

#[test]
fn test_scenario_epoch_date_rejected() {
    let m = map_of(vec![("CreateDate", text("1970:01:01 00:00:00"))]);
    let r = resolve_dates(&m, now_2026());
    assert!(matches!(r, Err(ExtractError::NoCreationDate)));
    assert_eq!(r.unwrap_err().message(), "No valid creation date found");
}

#[test]
fn test_plausibility_filter_edges() {
    let now = now_2026();
    // Within a day of the Unix epoch: rejected.
    assert!(!is_valid_date(ts(1970, 1, 1, 12, 0, 0, 0), now));
    // Exactly one day after the Unix epoch: accepted.
    assert!(is_valid_date(ts(1970, 1, 2, 0, 0, 0, 0), now));
    // Near the other placeholder epochs: rejected.
    assert!(!is_valid_date(ts(1900, 1, 1, 5, 0, 0, 0), now));
    assert!(!is_valid_date(ts(1904, 1, 1, 5, 0, 0, 0), now));
    assert!(!is_valid_date(ts(1980, 1, 6, 5, 0, 0, 0), now));
    assert!(!is_valid_date(ts(2001, 1, 1, 5, 0, 0, 0), now));
    // Well clear of the GPS epoch (1980-01-06): accepted.
    assert!(is_valid_date(ts(1980, 1, 1, 5, 0, 0, 0), now));
    // A date in the future: rejected.
    assert!(!is_valid_date(ts(2027, 1, 1, 0, 0, 0, 0), now));
    // An ordinary in-between date: accepted.
    assert!(is_valid_date(ts(2015, 7, 1, 0, 0, 0, 0), now));
}

#[test]
fn test_modify_axis_priority() {
    let m = map_of(vec![
        ("ModifyDate", text("2020:02:02 02:02:02")),
        ("DateTimeOriginal", text("2021:05:05 05:05:05")),
    ]);
    // The modification axis trusts ModifyDate first.
    assert_eq!(extract_modify_date(&m, now_2026()), Some(ts(2020, 2, 2, 2, 2, 2, 0)));
}

#[test]
fn test_batch_single_bad_file_among_valid() {
    // One unparseable file among N otherwise-valid files yields N - 1
    // successes and exactly one failure.
    let n = 7;
    let bad_index = 3;
    let mut paths: Vec<String> = Vec::new();
    let mut maps: Vec<Option<TagMap>> = Vec::new();
    for i in 0..n {
        paths.push(format!("/in/file{}.jpg", i));
        if i == bad_index {
            maps.push(Some(map_of(vec![])));
        } else {
            maps.push(Some(map_of(vec![("DateTimeOriginal", text("2024:01:01 00:00:00"))])));
        }
    }
    let outcomes = resolve_batch(&paths, &maps, now_2026());
    assert_eq!(outcomes.len(), n);
    let failures: Vec<usize> =
        (0..n).filter(|&i| outcomes[i].1.is_err()).collect();
    assert_eq!(failures, vec![bad_index]);
    for (i, (p, r)) in outcomes.iter().enumerate() {
        assert_eq!(p, &paths[i]);
        if i != bad_index {
            assert!(r.is_ok());
        }
    }
}

#[test]
fn test_batch_missing_metadata_entries() {
    let paths = vec!["/a.jpg".to_string(), "/b.jpg".to_string()];
    let maps = vec![Some(map_of(vec![("DateTimeOriginal", text("2024:01:01 00:00:00"))]))];
    let outcomes = resolve_batch(&paths, &maps, now_2026());
    assert!(outcomes[0].1.is_ok());
    assert!(matches!(outcomes[1].1, Err(ExtractError::NoMetadata)));
    assert_eq!(
        outcomes[1].1.as_ref().unwrap_err().message(),
        "No metadata result for file"
    );
}

#[test]
fn test_extract_error_messages() {
    assert_eq!(
        ExtractError::Engine("engine crashed".to_string()).message(),
        "Failed to extract metadata: engine crashed"
    );
    assert_eq!(ExtractError::NoExtension.message(), "File has no extension");
    assert_eq!(
        ExtractError::NoModifyDate.message(),
        "No valid modification date found"
    );
}

#[test]
fn test_media_dates_struct() {
    let md = MediaDates {
        creation_date: ts(2024, 4, 4, 4, 4, 4, 4),
        modify_date: ts(2024, 4, 4, 4, 4, 4, 5),
    };
    assert!(md.creation_date != md.modify_date);
}

#[test]
fn test_gps_epoch_date_rejected() {
    // The GPS epoch, 1980-01-06, is a placeholder: a file carrying it
    // resolves to nothing.
    let m = map_of(vec![("CreateDate", text("1980:01:06 00:00:00"))]);
    assert!(matches!(resolve_dates(&m, now_2026()), Err(ExtractError::NoCreationDate)));
}
