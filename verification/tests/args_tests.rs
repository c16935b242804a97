use collect_media::args::{Args, ArgsError};

fn argv(items: &[&str]) -> Vec<String> {
    items.iter().map(|s| s.to_string()).collect()
}

#[test]
fn test_arg_parsing_logic() {
    // The output flag may come first ...
    let a = Args::parse(&argv(&["collect_media", "-o", "/out", "/in/one", "/in/two"])).unwrap();
    assert_eq!(a.output_dir, "/out");
    assert_eq!(a.input_dirs, vec!["/in/one".to_string(), "/in/two".to_string()]);
    // ... or last.
    let b = Args::parse(&argv(&["collect_media", "/in/one", "/in/two", "-o", "/out"])).unwrap();
    assert_eq!(b.output_dir, "/out");
    assert_eq!(b.input_dirs, vec!["/in/one".to_string(), "/in/two".to_string()]);
}

#[test]
fn test_arg_parsing_long_flags() {
    let a = Args::parse(&argv(&["cm", "/in", "--output-directory", "/out"])).unwrap();
    assert_eq!(a.output_dir, "/out");
    let b = Args::parse(&argv(&["cm", "--output-dir", "/out", "/in"])).unwrap();
    assert_eq!(b.output_dir, "/out");
}

#[test]
fn test_arg_parsing_errors() {
    assert!(matches!(Args::parse(&argv(&["cm", "/in"])), Err(ArgsError::Usage)));
    assert!(matches!(
        Args::parse(&argv(&["cm", "/in/one", "/in/two"])),
        Err(ArgsError::OutputNotSpecified)
    ));
    assert!(matches!(
        Args::parse(&argv(&["cm", "/in/one", "/in/two", "-o"])),
        Err(ArgsError::MissingOutputValue)
    ));
    assert!(matches!(
        Args::parse(&argv(&["cm", "/in", "-o", "/out", "/stray"])),
        Err(ArgsError::FlagPosition)
    ));
    assert!(Args::parse(&argv(&["cm", "-o", "/out", "extra"])).is_ok());
    assert!(matches!(
        Args::parse(&argv(&["cm", "-o", "/out"])),
        Err(ArgsError::NoInputDirs)
    ));
}

#[test]
fn test_arg_error_messages() {
    assert_eq!(
        ArgsError::NoInputDirs.message(),
        "At least one input directory must be specified"
    );
    assert_eq!(
        ArgsError::FlagPosition.message(),
        "Output directory flag must be either first or last in the argument list"
    );
}
