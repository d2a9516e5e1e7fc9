use minigrep::{parse_arguments, Config};

#[test]
fn build_config_too_few_args() {
    let args = vec!["minigrep".to_string()];

    let config = Config::build(&args, &None);

    assert!(config.is_err());
}

#[test]
fn build_config_full() {
    let args = vec![
        "minigrep".to_string(),
        "duct".to_string(),
        "a.txt".to_string(),
        "-i".to_string(),
        "b.txt".to_string(),
    ];
    let config = Config::build(&args, &None).unwrap();
    assert_eq!(config.query, "duct");
    assert_eq!(config.file_paths, vec!["a.txt".to_string(), "b.txt".to_string()]);
    assert!(config.ignore_case);
}

#[test]
fn parse_arguments_plain_paths() {
    let args = vec!["a.txt".to_string(), "b.txt".to_string()];
    let (paths, ignore_case) = parse_arguments(&args, &None).unwrap();
    assert_eq!(paths, vec!["a.txt".to_string(), "b.txt".to_string()]);
    assert!(!ignore_case);
}

#[test]
fn parse_arguments_expands_dot() {
    let args = vec!["-i".to_string(), ".".to_string(), "z.txt".to_string()];
    let listing = Some(vec![Some("one.txt".to_string()), Some("two.txt".to_string())]);
    let (paths, ignore_case) = parse_arguments(&args, &listing).unwrap();
    assert_eq!(
        paths,
        vec!["one.txt".to_string(), "two.txt".to_string(), "z.txt".to_string()]
    );
    assert!(ignore_case);
}

#[test]
fn parse_arguments_dot_without_listing_is_skipped() {
    let args = vec![".".to_string(), "z.txt".to_string()];
    let (paths, ignore_case) = parse_arguments(&args, &None).unwrap();
    assert_eq!(paths, vec!["z.txt".to_string()]);
    assert!(!ignore_case);
}

#[test]
fn parse_arguments_rejects_unreadable_name() {
    let args = vec![".".to_string()];
    let listing = Some(vec![Some("one.txt".to_string()), None]);
    let err = parse_arguments(&args, &listing).unwrap_err();
    assert_eq!(err, "Failed to convert file path to string");
}

#[test]
fn build_config_swallows_argument_scan_failure() {
    let args = vec![
        "minigrep".to_string(),
        "duct".to_string(),
        ".".to_string(),
        "-i".to_string(),
    ];
    let listing = Some(vec![None]);
    let config = Config::build(&args, &listing).unwrap();
    assert_eq!(config.query, "duct");
    assert!(config.file_paths.is_empty());
    assert!(!config.ignore_case);
}
