use collect_media::filename::{
    find_available_filename, generate_filename, generate_filename_without_counter, get_extension,
    format_date, normalize_extension, FilenameError,
};
use collect_media::metadata::MediaDates;
use collect_media::timestamp::{timestamp_from_civil, CivilTime, Timestamp};

fn civil(y: u32, mo: u32, d: u32, h: u32, mi: u32, s: u32) -> CivilTime {
    CivilTime { year: y, month: mo, day: d, hour: h, minute: mi, second: s }
}

fn ts(y: u32, mo: u32, d: u32, h: u32, mi: u32, s: u32, ms: u32) -> Timestamp {
    timestamp_from_civil(civil(y, mo, d, h, mi, s), ms).unwrap()
}

#[test]
fn test_format_date() {
    let date = ts(2025, 12, 17, 21, 58, 0, 816);
    assert_eq!(format_date(&date), "2025-12-17_21.58.00.816");
}

#[test]
fn test_normalize_extension() {
    assert_eq!(normalize_extension("jpg"), "JPG");
    assert_eq!(normalize_extension("JPG"), "JPG");
    assert_eq!(normalize_extension("jpeg"), "JPG");
    assert_eq!(normalize_extension("JPEG"), "JPG");
    assert_eq!(normalize_extension("mov"), "MOV");
    assert_eq!(normalize_extension("heic"), "HEIC");
}

#[test]
fn test_generate_filename() {
    let creation = ts(2025, 8, 10, 3, 43, 16, 0);
    let modification = ts(2025, 8, 10, 3, 43, 16, 0);
    let dates = MediaDates { creation_date: creation, modify_date: modification };
    let filename = generate_filename(&dates, "MOV", 1);
    assert_eq!(filename, "2025-08-10_03.43.16.000 2025-08-10_03.43.16.000 1.MOV");
}

#[test]
fn test_generate_filename_without_counter() {
    let dates = MediaDates {
        creation_date: ts(2025, 8, 10, 3, 43, 16, 0),
        modify_date: ts(2025, 8, 10, 4, 0, 0, 500),
    };
    let base = generate_filename_without_counter(&dates, "jpeg");
    assert_eq!(base, "2025-08-10_03.43.16.000 2025-08-10_04.00.00.500.JPG");
}

#[test]
fn test_format_date_epoch_era() {
    // A pre-1970 instant still formats correctly.
    let date = ts(1960, 2, 29, 0, 0, 1, 7);
    assert_eq!(format_date(&date), "1960-02-29_00.00.01.007");
}

#[test]
fn test_get_extension_cases() {
    assert_eq!(get_extension("/a/b/photo.jpg"), Some("jpg".to_string()));
    assert_eq!(get_extension("archive.tar.gz"), Some("gz".to_string()));
    assert_eq!(get_extension("/a/b/noext"), None);
    assert_eq!(get_extension(".bashrc"), None);
    assert_eq!(get_extension("/dotted.dir/noext"), None);
}

#[test]
fn test_find_available_filename_free_slot() {
    let dates = MediaDates {
        creation_date: ts(2025, 8, 10, 3, 43, 16, 0),
        modify_date: ts(2025, 8, 10, 3, 43, 16, 0),
    };
    let occupied: Vec<Vec<u8>> = vec![vec![1, 2, 3]];
    let content = vec![9, 9, 9];
    let (name, counter) =
        find_available_filename(&occupied, &dates, "jpg", Some(&content)).unwrap();
    assert_eq!(counter, 2);
    assert_eq!(name, "2025-08-10_03.43.16.000 2025-08-10_03.43.16.000 2.JPG");
}

#[test]
fn test_find_available_filename_duplicate() {
    let dates = MediaDates {
        creation_date: ts(2025, 8, 10, 3, 43, 16, 0),
        modify_date: ts(2025, 8, 10, 3, 43, 16, 0),
    };
    let occupied: Vec<Vec<u8>> = vec![vec![1, 2, 3], vec![9, 9, 9]];
    let content = vec![9, 9, 9];
    let (_, counter) = find_available_filename(&occupied, &dates, "jpg", Some(&content)).unwrap();
    assert_eq!(counter, 2);
}

#[test]
fn test_find_available_filename_error_message() {
    assert_eq!(
        FilenameError::TooManyCollisions.message(),
        "Too many filename collisions for the same date pair"
    );
}
