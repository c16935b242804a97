use collect_media::metadata::{ExtractError, MediaDates, TagMap, TagValue};
use collect_media::processor::{
    collision_step, confirms_deletion, is_eligible_media_name, next_batch_size,
    pair_batch_results, place_content, transfer_decision, worker_count, BatchAssembler,
    CollisionStep, DiskProbe, PlaceOutcome, Processor, ProcessingStats, TransferAction,
};
use collect_media::timestamp::{timestamp_from_civil, CivilTime, Timestamp};

fn ts(y: u32, mo: u32, d: u32) -> Timestamp {
    timestamp_from_civil(
        CivilTime { year: y, month: mo, day: d, hour: 0, minute: 0, second: 0 },
        0,
    )
    .unwrap()
}

fn dates() -> MediaDates {
    MediaDates { creation_date: ts(2024, 5, 5), modify_date: ts(2024, 5, 6) }
}

#[test]
fn test_place_idempotent() {
    // Placing the same content twice: one physical file, then a duplicate.
    let mut dir: Vec<Vec<u8>> = Vec::new();
    let content = vec![1u8, 2, 3];
    assert_eq!(place_content(&mut dir, content.clone()), PlaceOutcome::Placed(1));
    assert_eq!(dir.len(), 1);
    assert_eq!(place_content(&mut dir, content.clone()), PlaceOutcome::DuplicateOf(1));
    assert_eq!(dir.len(), 1);
}

#[test]
fn test_place_identical_concurrent_sources() {
    // Two files with identical resolved dates and identical bytes: one is
    // placed, the other is recorded as its duplicate; one physical file.
    let mut dir: Vec<Vec<u8>> = Vec::new();
    let a = vec![7u8; 32];
    let b = a.clone();
    assert_eq!(place_content(&mut dir, a), PlaceOutcome::Placed(1));
    assert_eq!(place_content(&mut dir, b), PlaceOutcome::DuplicateOf(1));
    assert_eq!(dir.len(), 1);
}

#[test]
fn test_place_different_content_gets_next_counter() {
    // Identical dates, different bytes: counters 1 and 2, both present.
    let mut dir: Vec<Vec<u8>> = Vec::new();
    assert_eq!(place_content(&mut dir, vec![1u8]), PlaceOutcome::Placed(1));
    assert_eq!(place_content(&mut dir, vec![2u8]), PlaceOutcome::Placed(2));
    assert_eq!(dir.len(), 2);
    assert_eq!(dir[0], vec![1u8]);
    assert_eq!(dir[1], vec![2u8]);
}

#[test]
fn test_collision_step() {
    assert_eq!(collision_step(1, DiskProbe::Absent), CollisionStep::UseCounter);
    assert_eq!(collision_step(3, DiskProbe::SameContent), CollisionStep::Duplicate);
    assert_eq!(collision_step(3, DiskProbe::DifferentContent), CollisionStep::Next(4));
    assert_eq!(collision_step(3, DiskProbe::ReadFailed), CollisionStep::Next(4));
    assert_eq!(collision_step(10000, DiskProbe::DifferentContent), CollisionStep::Fail);
}

#[test]
fn test_transfer_decision() {
    assert_eq!(transfer_decision(Some(true), true), TransferAction::SkipDuplicate);
    assert_eq!(transfer_decision(Some(false), true), TransferAction::Rename);
    assert_eq!(transfer_decision(None, true), TransferAction::Rename);
    assert_eq!(transfer_decision(None, false), TransferAction::CopyThenDelete);
}

#[test]
fn test_worker_count_floor() {
    assert_eq!(worker_count(8), 4);
    assert_eq!(worker_count(2), 1);
    assert_eq!(worker_count(1), 1);
    assert_eq!(worker_count(0), 1);
}

#[test]
fn test_batch_size_growth() {
    assert_eq!(next_batch_size(50), 60);
    assert_eq!(next_batch_size(990), 1000);
    assert_eq!(next_batch_size(1000), 1000);
}

#[test]
fn test_batch_assembler_flush_and_growth() {
    let mut assembler = BatchAssembler::new();
    let mut flushed: Option<Vec<(String, bool)>> = None;
    for i in 0..50 {
        let r = assembler.push(format!("/in/f{}.jpg", i), true);
        if i < 49 {
            assert!(r.is_none());
        } else {
            flushed = r;
        }
    }
    let batch = flushed.expect("the fiftieth item flushes the batch");
    assert_eq!(batch.len(), 50);
    assert_eq!(batch[0].0, "/in/f0.jpg");
    // The next batch flushes at 60.
    let mut last: Option<Vec<(String, bool)>> = None;
    for i in 0..60 {
        last = assembler.push(format!("/in/g{}.jpg", i), false);
        assert_eq!(last.is_some(), i == 59);
    }
    assert_eq!(last.unwrap().len(), 60);
    // A remainder is handed out by finish.
    assert!(assembler.finish().is_none());
    assembler.push("/in/tail.jpg".to_string(), true);
    let rest = assembler.finish().expect("the remainder flushes");
    assert_eq!(rest.len(), 1);
    assert!(assembler.finish().is_none());
}

#[test]
fn test_pair_batch_results() {
    let info = vec![
        ("/in/a.jpg".to_string(), true),
        ("/in/noext".to_string(), false),
        ("/in/c.mov".to_string(), false),
    ];
    let outcomes = vec![
        ("/in/a.jpg".to_string(), Ok(dates())),
        ("/in/noext".to_string(), Ok(dates())),
        ("/in/c.mov".to_string(), Err(ExtractError::NoCreationDate)),
    ];
    let paired = pair_batch_results(&info, outcomes);
    assert_eq!(paired.len(), 3);
    let pf = paired[0].1.as_ref().unwrap();
    assert_eq!(pf.extension, "jpg");
    assert!(pf.should_move);
    assert!(matches!(paired[1].1, Err(ExtractError::NoExtension)));
    assert!(matches!(paired[2].1, Err(ExtractError::NoCreationDate)));
}

#[test]
fn test_stats_recording() {
    let mut stats = ProcessingStats::default();
    stats.set_total(5);
    stats.record_moved();
    stats.record_copied();
    stats.record_failed();
    stats.record_duplicate("/in/a.jpg".to_string(), "/out/x.JPG".to_string());
    assert_eq!(stats.total_files, 5);
    assert_eq!(stats.moved, 1);
    assert_eq!(stats.copied, 1);
    assert_eq!(stats.failed, 1);
    assert_eq!(stats.skipped, 1);
    assert_eq!(stats.duplicates.len(), 1);
    assert_eq!(stats.duplicates[0].0, "/in/a.jpg");
}

#[test]
fn test_processor_new() {
    let p = Processor::new("/out/Library".to_string());
    assert_eq!(p.output_dir, "/out/Library");
    assert_eq!(p.failed_cases_dir, "/out/Library/Failed Cases");
    assert_eq!(p.stats.total_files, 0);
}

#[test]
fn test_scan_eligibility() {
    assert!(is_eligible_media_name("IMG_0001.jpg"));
    assert!(is_eligible_media_name("clip.mov"));
    assert!(!is_eligible_media_name("._IMG_0001.jpg"));
    assert!(!is_eligible_media_name(".DS_Store"));
    assert!(!is_eligible_media_name("IMG_0001.aae"));
    assert!(!is_eligible_media_name("IMG_0001.AAE"));
    assert!(is_eligible_media_name(".hidden_but_not_llapledouble.jpg"));
}

#[test]
fn test_tag_map_lookup_first_entry_wins() {
    let m = TagMap {
        entries: vec![
            ("CreateDate".to_string(), TagValue::Text("2020:01:01 00:00:00".to_string())),
            ("CreateDate".to_string(), TagValue::Text("2021:01:01 00:00:00".to_string())),
        ],
    };
    match m.get("CreateDate") {
        Some(TagValue::Text(s)) => assert_eq!(s, "2020:01:01 00:00:00"),
        _ => panic!("expected the first entry"),
    }
}

#[test]
fn test_confirms_deletion() {
    assert!(confirms_deletion("y"));
    assert!(confirms_deletion("yes"));
    assert!(confirms_deletion("YES\n"));
    assert!(confirms_deletion("  Y  "));
    assert!(confirms_deletion("\tYes\r\n"));
    assert!(!confirms_deletion("n"));
    assert!(!confirms_deletion("no"));
    assert!(!confirms_deletion(""));
    assert!(!confirms_deletion("   "));
    assert!(!confirms_deletion("yess"));
    assert!(!confirms_deletion("y e s"));
}
