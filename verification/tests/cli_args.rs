use git_share_obj::cli::Args;

fn parse(tokens: &[&str]) -> Args {
    let argv: Vec<String> = tokens.iter().map(|t| t.to_string()).collect();
    Args::parse_from(&argv).expect("arguments should parse")
}

#[test]
fn test_default_args() {
    let args = parse(&["git-share-obj"]);
    assert_eq!(args.paths, vec!["."]);
    assert!(!args.dry_run);
    assert!(!args.verbose);
    assert!(!args.no_fsck);
    assert!(!args.fsck_only);
}

#[test]
fn test_dry_run_short() {
    let args = parse(&["git-share-obj", "-n"]);
    assert!(args.dry_run);
}

#[test]
fn test_dry_run_long() {
    let args = parse(&["git-share-obj", "--dry-run"]);
    assert!(args.dry_run);
}

#[test]
fn test_verbose_short() {
    let args = parse(&["git-share-obj", "-v"]);
    assert!(args.verbose);
}

#[test]
fn test_verbose_long() {
    let args = parse(&["git-share-obj", "--verbose"]);
    assert!(args.verbose);
}

#[test]
fn test_single_path() {
    let args = parse(&["git-share-obj", "/path/to/dir"]);
    assert_eq!(args.paths, vec!["/path/to/dir"]);
}

#[test]
fn test_multiple_paths() {
    let args = parse(&["git-share-obj", "/path/a", "/path/b", "/path/c"]);
    assert_eq!(args.paths, vec!["/path/a", "/path/b", "/path/c"]);
}

#[test]
fn test_all_options_single_path() {
    let args = parse(&["git-share-obj", "-n", "-v", "/custom/path"]);
    assert!(args.dry_run);
    assert!(args.verbose);
    assert_eq!(args.paths, vec!["/custom/path"]);
}

#[test]
fn test_all_options_multiple_paths() {
    let args = parse(&["git-share-obj", "-n", "-v", "/path/a", "/path/b"]);
    assert!(args.dry_run);
    assert!(args.verbose);
    assert_eq!(args.paths, vec!["/path/a", "/path/b"]);
}

#[test]
fn test_no_fsck_long() {
    let args = parse(&["git-share-obj", "--no-fsck"]);
    assert!(args.no_fsck);
    assert!(!args.fsck_only);
}

#[test]
fn test_fsck_only_long() {
    let args = parse(&["git-share-obj", "--fsck-only"]);
    assert!(args.fsck_only);
    assert!(!args.no_fsck);
}

#[test]
fn test_no_fsck_and_fsck_only_together() {
    let args = parse(&["git-share-obj", "--no-fsck", "--fsck-only", "/path/a"]);
    assert!(args.no_fsck);
    assert!(args.fsck_only);
    assert_eq!(args.paths, vec!["/path/a"]);
}

#[test]
fn test_unknown_flag_is_refused() {
    let argv: Vec<String> = vec!["git-share-obj".to_string(), "--frobnicate".to_string()];
    assert!(Args::parse_from(&argv).is_none());
}

#[test]
fn test_flags_after_paths() {
    let args = parse(&["git-share-obj", "/path/a", "--dry-run"]);
    assert!(args.dry_run);
    assert_eq!(args.paths, vec!["/path/a"]);
}
