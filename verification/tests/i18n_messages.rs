use git_share_obj::i18n::{format_size, is_japanese, msg, msg_en, msg_ja, u64_to_string, Msg};

#[test]
fn it_works() {
    assert!(true);
}

#[test]
fn test_msg_returns_string() {
    assert!(!msg_ja(Msg::AppDescription).is_empty());
    assert!(!msg_en(Msg::AppDescription).is_empty());
}

#[test]
fn test_all_keys_have_translations() {
    let keys = [
        Msg::AppDescription,
        Msg::ArgPaths,
        Msg::ArgDryRun,
        Msg::ArgVerbose,
        Msg::Scanning,
        Msg::FoundObjects,
        Msg::FoundDuplicateGroups,
        Msg::DuplicateFiles,
        Msg::Processing,
        Msg::ProcessingDevice,
        Msg::DeviceGroups,
        Msg::Replaced,
        Msg::AlreadyLinked,
        Msg::CrossFilesystem,
        Msg::ErrorOccurred,
        Msg::SummaryDryRun,
        Msg::SummaryComplete,
        Msg::TotalDuplicates,
        Msg::TotalReplaced,
        Msg::TotalSkipped,
        Msg::TotalErrors,
        Msg::GroupSavings,
        Msg::EstimatedSavings,
        Msg::TotalSavings,
        Msg::FsckRunning,
        Msg::FsckOk,
        Msg::FsckFailed,
        Msg::FsckSummary,
        Msg::FsckOnlyComplete,
        Msg::FsckSkipped,
        Msg::AbortOnFsckFailure,
        Msg::RollbackOccurred,
        Msg::RollbackFailed,
    ];

    for key in keys {
        assert!(!msg_ja(key).is_empty());
        assert!(!msg_en(key).is_empty());
    }
}

#[test]
fn test_msg_is_never_empty() {
    assert!(!msg(Msg::Replaced).is_empty());
}

#[test]
fn test_is_japanese_returns() {
    let ja = is_japanese();
    assert!(ja || !ja);
}

#[test]
fn test_format_size_bytes() {
    assert_eq!(format_size(0), "0 B");
    assert_eq!(format_size(512), "512 B");
    assert_eq!(format_size(1023), "1023 B");
}

#[test]
fn test_format_size_kilobytes() {
    assert_eq!(format_size(1024), "1.00 KB");
    assert_eq!(format_size(1536), "1.50 KB");
    assert_eq!(format_size(1024 * 1023), "1023.00 KB");
}

#[test]
fn test_format_size_megabytes() {
    assert_eq!(format_size(1024 * 1024), "1.00 MB");
    assert_eq!(format_size(1024 * 1024 * 100), "100.00 MB");
}

#[test]
fn test_format_size_gigabytes() {
    assert_eq!(format_size(1024 * 1024 * 1024), "1.00 GB");
    assert_eq!(format_size(1024 * 1024 * 1024 * 2), "2.00 GB");
}

#[test]
fn test_format_size_rounds_up_to_next_whole() {
    assert_eq!(format_size(2 * 1024 * 1024 * 1024 - 1), "2.00 GB");
}

#[test]
fn test_u64_to_string() {
    assert_eq!(u64_to_string(0), "0");
    assert_eq!(u64_to_string(7), "7");
    assert_eq!(u64_to_string(1024), "1024");
    assert_eq!(u64_to_string(u64::MAX), "18446744073709551615");
}
