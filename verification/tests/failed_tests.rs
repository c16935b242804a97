use collect_media::failed::{find_available_symlink_name, FailedCaseError};

fn names(items: &[&str]) -> Vec<String> {
    items.iter().map(|s| s.to_string()).collect()
}

#[test]
fn test_find_available_symlink_name() {
    // A free name is kept as it is.
    let existing = names(&["other.jpg"]);
    assert_eq!(
        find_available_symlink_name(&existing, "IMG_1.jpg").unwrap(),
        "IMG_1.jpg"
    );
    // A taken name gets a counter before its extension.
    let existing = names(&["IMG_1.jpg"]);
    assert_eq!(
        find_available_symlink_name(&existing, "IMG_1.jpg").unwrap(),
        "IMG_1-1.jpg"
    );
    // Counters advance past every taken candidate.
    let existing = names(&["IMG_1.jpg", "IMG_1-1.jpg", "IMG_1-2.jpg"]);
    assert_eq!(
        find_available_symlink_name(&existing, "IMG_1.jpg").unwrap(),
        "IMG_1-3.jpg"
    );
}

#[test]
fn test_symlink_name_without_extension() {
    let existing = names(&["README"]);
    assert_eq!(
        find_available_symlink_name(&existing, "README").unwrap(),
        "README-1"
    );
}

#[test]
fn test_symlink_name_dotfile() {
    // A leading dot is part of the stem, not an extension marker.
    let existing = names(&[".config"]);
    assert_eq!(
        find_available_symlink_name(&existing, ".config").unwrap(),
        ".config-1"
    );
}

#[test]
fn test_failed_case_error_message() {
    assert_eq!(
        FailedCaseError::NoAvailableName.message(),
        "Could not find available symlink name"
    );
}
