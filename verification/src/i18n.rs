//! Localised messages and size formatting.

use vstd::prelude::*;
use vstd::string::StrSliceExecFns;
use vstd::string::StringExecFns;

verus! {

/// Bytes per kilobyte.
pub const KB: u64 = 1024;

/// Bytes per megabyte.
pub const MB: u64 = 1024 * 1024;

/// Bytes per gigabyte.
pub const GB: u64 = 1024 * 1024 * 1024;

/// The decimal digit character for `d`.
pub open spec fn dec_digit(d: int) -> char {
    if d == 0 {
        '0'
    } else if d == 1 {
        '1'
    } else if d == 2 {
        '2'
    } else if d == 3 {
        '3'
    } else if d == 4 {
        '4'
    } else if d == 5 {
        '5'
    } else if d == 6 {
        '6'
    } else if d == 7 {
        '7'
    } else if d == 8 {
        '8'
    } else {
        '9'
    }
}

/// The decimal digits of `n`, most significant first.
pub open spec fn dec_digits(n: int) -> Seq<char>
    decreases n,
{
    if n < 10 {
        seq![dec_digit(n)]
    } else {
        dec_digits(n / 10).push(dec_digit(n % 10))
    }
}

/// The single-character string for digit `d`.
fn digit_str(d: u64) -> (r: &'static str)
    requires
        d < 10,
    ensures
        r@ == seq![dec_digit(d as int)],
{
    if d == 0 {
        proof {
            reveal_strlit("0");
        }
        assert("0"@ =~= seq!['0']);
        "0"
    } else if d == 1 {
        proof {
            reveal_strlit("1");
        }
        assert("1"@ =~= seq!['1']);
        "1"
    } else if d == 2 {
        proof {
            reveal_strlit("2");
        }
        assert("2"@ =~= seq!['2']);
        "2"
    } else if d == 3 {
        proof {
            reveal_strlit("3");
        }
        assert("3"@ =~= seq!['3']);
        "3"
    } else if d == 4 {
        proof {
            reveal_strlit("4");
        }
        assert("4"@ =~= seq!['4']);
        "4"
    } else if d == 5 {
        proof {
            reveal_strlit("5");
        }
        assert("5"@ =~= seq!['5']);
        "5"
    } else if d == 6 {
        proof {
            reveal_strlit("6");
        }
        assert("6"@ =~= seq!['6']);
        "6"
    } else if d == 7 {
        proof {
            reveal_strlit("7");
        }
        assert("7"@ =~= seq!['7']);
        "7"
    } else if d == 8 {
        proof {
            reveal_strlit("8");
        }
        assert("8"@ =~= seq!['8']);
        "8"
    } else {
        proof {
            reveal_strlit("9");
        }
        assert("9"@ =~= seq!['9']);
        "9"
    }
}

/// The decimal representation of `n`.
pub fn u64_to_string(n: u64) -> (r: String)
    ensures
        r@ == dec_digits(n as int),
    decreases n,
{
    if n < 10 {
        String::from_str(digit_str(n))
    } else {
        let r = u64_to_string(n / 10).concat(digit_str(n % 10));
        proof {
            assert(r@ =~= dec_digits(n as int));
        }
        r
    }
}

/// Hundredths of `div` that `bytes` holds beyond its whole multiples,
/// rounded half up.
pub open spec fn centi_part(bytes: u64, div: u64) -> int {
    ((bytes % div) * 100 + div / 2) / (div as int)
}

/// The quantity `bytes / div` written with two decimal places.
pub open spec fn spec_size_fixed(bytes: u64, div: u64) -> Seq<char> {
    let c = centi_part(bytes, div);
    let w = bytes / div + if c == 100 {
        1int
    } else {
        0int
    };
    let c2 = if c == 100 {
        0int
    } else {
        c
    };
    dec_digits(w) + "."@ + seq![dec_digit(c2 / 10), dec_digit(c2 % 10)]
}

/// What `format_size` returns: bytes below one kilobyte verbatim with
/// a `B` unit, larger quantities with two decimal places in the
/// largest unit they reach.
pub open spec fn spec_format_size(bytes: u64) -> Seq<char> {
    if bytes >= GB {
        spec_size_fixed(bytes, GB) + " GB"@
    } else if bytes >= MB {
        spec_size_fixed(bytes, MB) + " MB"@
    } else if bytes >= KB {
        spec_size_fixed(bytes, KB) + " KB"@
    } else {
        dec_digits(bytes as int) + " B"@
    }
}

/// Formats `bytes / div` with two decimal places and the given unit.
fn format_fixed(bytes: u64, div: u64, unit: &str) -> (r: String)
    requires
        1024 <= div <= 0x40000000,
    ensures
        r@ == spec_size_fixed(bytes, div) + unit@,
{
    let rem = bytes % div;
    let c = (rem * 100 + div / 2) / div;
    let mut w = bytes / div;
    let mut c2 = c;
    assert(c <= 100) by {
        assert(rem * 100 + div / 2 < div * 101) by (nonlinear_arith)
            requires
                rem < div,
                div >= 1024,
        ;
        assert((rem * 100 + div / 2) / (div as int) < 101) by (nonlinear_arith)
            requires
                rem * 100 + div / 2 < div * 101,
                div >= 1024,
        ;
    }
    if c == 100 {
        assert(w < u64::MAX) by {
            assert(bytes / div <= bytes / 1024) by (nonlinear_arith)
                requires
                    div >= 1024,
            ;
        }
        w = w + 1;
        c2 = 0;
    }
    let r = u64_to_string(w).concat(".").concat(digit_str(c2 / 10)).concat(digit_str(c2 % 10))
        .concat(unit);
    proof {
        assert(r@ =~= spec_size_fixed(bytes, div) + unit@);
    }
    r
}

/// Formats a byte count for people: `512 B`, `1.50 KB`, `2.00 GB`.
pub fn format_size(bytes: u64) -> (r: String)
    ensures
        r@ == spec_format_size(bytes),
{
    if bytes >= GB {
        format_fixed(bytes, GB, " GB")
    } else if bytes >= MB {
        format_fixed(bytes, MB, " MB")
    } else if bytes >= KB {
        format_fixed(bytes, KB, " KB")
    } else {
        let r = u64_to_string(bytes).concat(" B");
        r
    }
}

/// A message key of the user-facing text table.
#[derive(Debug, Clone, Copy)]
pub enum Msg {
    AppDescription,
    ArgPaths,
    ArgDryRun,
    ArgVerbose,
    Scanning,
    FoundObjects,
    FoundDuplicateGroups,
    DuplicateFiles,
    Processing,
    ProcessingDevice,
    DeviceGroups,
    Replaced,
    AlreadyLinked,
    CrossFilesystem,
    ErrorOccurred,
    SummaryDryRun,
    SummaryComplete,
    TotalDuplicates,
    TotalReplaced,
    TotalSkipped,
    TotalErrors,
    GroupSavings,
    EstimatedSavings,
    TotalSavings,
    FsckRunning,
    FsckOk,
    FsckFailed,
    FsckSummary,
    FsckOnlyComplete,
    FsckSkipped,
    AbortOnFsckFailure,
    RollbackOccurred,
    RollbackFailed,
}

/// Whether a locale tag asks for Japanese: it starts with `ja`.
pub open spec fn japanese_locale(l: Seq<char>) -> bool {
    l.len() >= 2 && l[0] == 'j' && l[1] == 'a'
}

/// Relies on sys_locale::get_locale: the preferred locale of the
/// system or application as a BCP 47 tag, or None when it cannot be
/// obtained.  The result depends on the process environment, so
/// nothing is promised of it.
#[verifier::external_body]
fn current_locale() -> Option<String> {
    sys_locale::get_locale()
}

/// Whether an obtained locale tag asks for Japanese.
pub fn locale_is_japanese(locale: &Option<String>) -> (r: bool)
    ensures
        r == (locale matches Some(l) && japanese_locale(l@)),
{
    match locale {
        None => false,
        Some(l) => {
            let ls = l.as_str();
            if ls.unicode_len() < 2 {
                return false;
            }
            ls.get_char(0) == 'j' && ls.get_char(1) == 'a'
        },
    }
}

/// Whether the current locale asks for Japanese.  The result follows
/// the process environment.
pub fn is_japanese() -> bool {
    let locale = current_locale();
    locale_is_japanese(&locale)
}

/// The localised message for a key: the Japanese table under a
/// Japanese locale, the English table otherwise.  Never empty.
pub fn msg(key: Msg) -> (r: &'static str)
    ensures
        r@.len() > 0,
{
    if is_japanese() {
        msg_ja(key)
    } else {
        msg_en(key)
    }
}

/// The Japanese message for a key.  Never empty.
pub fn msg_ja(key: Msg) -> (r: &'static str)
    ensures
        r@.len() > 0,
{
    match key {
        Msg::AppDescription => {
            proof {
                reveal_strlit("Gitオブジェクトの重複ファイルをハードリンクで共有するツール");
            }
            "Gitオブジェクトの重複ファイルをハードリンクで共有するツール"
        },
        Msg::ArgPaths => {
            proof {
                reveal_strlit("探索対象のディレクトリ (複数指定可能、デフォルト: カレントディレクトリ)");
            }
            "探索対象のディレクトリ (複数指定可能、デフォルト: カレントディレクトリ)"
        },
        Msg::ArgDryRun => {
            proof {
                reveal_strlit("ドライラン (実際には変更せず、検出結果のみ表示)");
            }
            "ドライラン (実際には変更せず、検出結果のみ表示)"
        },
        Msg::ArgVerbose => {
            proof {
                reveal_strlit("詳細出力");
            }
            "詳細出力"
        },
        Msg::Scanning => {
            proof {
                reveal_strlit("探索中...");
            }
            "探索中..."
        },
        Msg::FoundObjects => {
            proof {
                reveal_strlit("オブジェクトファイル発見");
            }
            "オブジェクトファイル発見"
        },
        Msg::FoundDuplicateGroups => {
            proof {
                reveal_strlit("重複グループ発見");
            }
            "重複グループ発見"
        },
        Msg::DuplicateFiles => {
            proof {
                reveal_strlit("重複ファイル");
            }
            "重複ファイル"
        },
        Msg::Processing => {
            proof {
                reveal_strlit("処理中...");
            }
            "処理中..."
        },
        Msg::ProcessingDevice => {
            proof {
                reveal_strlit("デバイス処理中");
            }
            "デバイス処理中"
        },
        Msg::DeviceGroups => {
            proof {
                reveal_strlit("デバイスグループ");
            }
            "デバイスグループ"
        },
        Msg::Replaced => {
            proof {
                reveal_strlit("置換完了");
            }
            "置換完了"
        },
        Msg::AlreadyLinked => {
            proof {
                reveal_strlit("既にリンク済み");
            }
            "既にリンク済み"
        },
        Msg::CrossFilesystem => {
            proof {
                reveal_strlit("ファイルシステム跨ぎのためスキップ");
            }
            "ファイルシステム跨ぎのためスキップ"
        },
        Msg::ErrorOccurred => {
            proof {
                reveal_strlit("エラー");
            }
            "エラー"
        },
        Msg::SummaryDryRun => {
            proof {
                reveal_strlit("=== ドライラン結果 ===");
            }
            "=== ドライラン結果 ==="
        },
        Msg::SummaryComplete => {
            proof {
                reveal_strlit("=== 処理完了 ===");
            }
            "=== 処理完了 ==="
        },
        Msg::TotalDuplicates => {
            proof {
                reveal_strlit("重複ファイル総数");
            }
            "重複ファイル総数"
        },
        Msg::TotalReplaced => {
            proof {
                reveal_strlit("置換成功");
            }
            "置換成功"
        },
        Msg::TotalSkipped => {
            proof {
                reveal_strlit("スキップ");
            }
            "スキップ"
        },
        Msg::TotalErrors => {
            proof {
                reveal_strlit("エラー");
            }
            "エラー"
        },
        Msg::GroupSavings => {
            proof {
                reveal_strlit("グループ削減容量");
            }
            "グループ削減容量"
        },
        Msg::EstimatedSavings => {
            proof {
                reveal_strlit("見込み削減容量");
            }
            "見込み削減容量"
        },
        Msg::TotalSavings => {
            proof {
                reveal_strlit("合計削減容量");
            }
            "合計削減容量"
        },
        Msg::FsckRunning => {
            proof {
                reveal_strlit("fsck実行中");
            }
            "fsck実行中"
        },
        Msg::FsckOk => {
            proof {
                reveal_strlit("fsck成功");
            }
            "fsck成功"
        },
        Msg::FsckFailed => {
            proof {
                reveal_strlit("fsck失敗");
            }
            "fsck失敗"
        },
        Msg::FsckSummary => {
            proof {
                reveal_strlit("fsck集計");
            }
            "fsck集計"
        },
        Msg::FsckOnlyComplete => {
            proof {
                reveal_strlit("=== fsckのみ完了 ===");
            }
            "=== fsckのみ完了 ==="
        },
        Msg::FsckSkipped => {
            proof {
                reveal_strlit("fsckスキップ (--no-fsck)");
            }
            "fsckスキップ (--no-fsck)"
        },
        Msg::AbortOnFsckFailure => {
            proof {
                reveal_strlit("fsck失敗のため置換処理を中止");
            }
            "fsck失敗のため置換処理を中止"
        },
        Msg::RollbackOccurred => {
            proof {
                reveal_strlit("ロールバック");
            }
            "ロールバック"
        },
        Msg::RollbackFailed => {
            proof {
                reveal_strlit("ロールバック失敗");
            }
            "ロールバック失敗"
        },
    }
}

/// The English message for a key.  Never empty.
pub fn msg_en(key: Msg) -> (r: &'static str)
    ensures
        r@.len() > 0,
{
    match key {
        Msg::AppDescription => {
            proof {
                reveal_strlit("Share duplicate Git objects using hard links");
            }
            "Share duplicate Git objects using hard links"
        },
        Msg::ArgPaths => {
            proof {
                reveal_strlit("Target directories (multiple allowed, default: current directory)");
            }
            "Target directories (multiple allowed, default: current directory)"
        },
        Msg::ArgDryRun => {
            proof {
                reveal_strlit("Dry run (only show results without making changes)");
            }
            "Dry run (only show results without making changes)"
        },
        Msg::ArgVerbose => {
            proof {
                reveal_strlit("Verbose output");
            }
            "Verbose output"
        },
        Msg::Scanning => {
            proof {
                reveal_strlit("Scanning...");
            }
            "Scanning..."
        },
        Msg::FoundObjects => {
            proof {
                reveal_strlit("object files found");
            }
            "object files found"
        },
        Msg::FoundDuplicateGroups => {
            proof {
                reveal_strlit("duplicate groups found");
            }
            "duplicate groups found"
        },
        Msg::DuplicateFiles => {
            proof {
                reveal_strlit("duplicate files");
            }
            "duplicate files"
        },
        Msg::Processing => {
            proof {
                reveal_strlit("Processing...");
            }
            "Processing..."
        },
        Msg::ProcessingDevice => {
            proof {
                reveal_strlit("Processing device");
            }
            "Processing device"
        },
        Msg::DeviceGroups => {
            proof {
                reveal_strlit("device groups");
            }
            "device groups"
        },
        Msg::Replaced => {
            proof {
                reveal_strlit("Replaced");
            }
            "Replaced"
        },
        Msg::AlreadyLinked => {
            proof {
                reveal_strlit("Already linked");
            }
            "Already linked"
        },
        Msg::CrossFilesystem => {
            proof {
                reveal_strlit("Skipped (cross-filesystem)");
            }
            "Skipped (cross-filesystem)"
        },
        Msg::ErrorOccurred => {
            proof {
                reveal_strlit("Error");
            }
            "Error"
        },
        Msg::SummaryDryRun => {
            proof {
                reveal_strlit("=== Dry Run Results ===");
            }
            "=== Dry Run Results ==="
        },
        Msg::SummaryComplete => {
            proof {
                reveal_strlit("=== Complete ===");
            }
            "=== Complete ==="
        },
        Msg::TotalDuplicates => {
            proof {
                reveal_strlit("Total duplicates");
            }
            "Total duplicates"
        },
        Msg::TotalReplaced => {
            proof {
                reveal_strlit("Replaced");
            }
            "Replaced"
        },
        Msg::TotalSkipped => {
            proof {
                reveal_strlit("Skipped");
            }
            "Skipped"
        },
        Msg::TotalErrors => {
            proof {
                reveal_strlit("Errors");
            }
            "Errors"
        },
        Msg::GroupSavings => {
            proof {
                reveal_strlit("Group savings");
            }
            "Group savings"
        },
        Msg::EstimatedSavings => {
            proof {
                reveal_strlit("Estimated savings");
            }
            "Estimated savings"
        },
        Msg::TotalSavings => {
            proof {
                reveal_strlit("Total savings");
            }
            "Total savings"
        },
        Msg::FsckRunning => {
            proof {
                reveal_strlit("Running fsck");
            }
            "Running fsck"
        },
        Msg::FsckOk => {
            proof {
                reveal_strlit("fsck ok");
            }
            "fsck ok"
        },
        Msg::FsckFailed => {
            proof {
                reveal_strlit("fsck failed");
            }
            "fsck failed"
        },
        Msg::FsckSummary => {
            proof {
                reveal_strlit("fsck summary");
            }
            "fsck summary"
        },
        Msg::FsckOnlyComplete => {
            proof {
                reveal_strlit("=== fsck-only complete ===");
            }
            "=== fsck-only complete ==="
        },
        Msg::FsckSkipped => {
            proof {
                reveal_strlit("fsck skipped (--no-fsck)");
            }
            "fsck skipped (--no-fsck)"
        },
        Msg::AbortOnFsckFailure => {
            proof {
                reveal_strlit("Aborting replacement due to fsck failure");
            }
            "Aborting replacement due to fsck failure"
        },
        Msg::RollbackOccurred => {
            proof {
                reveal_strlit("Rollback");
            }
            "Rollback"
        },
        Msg::RollbackFailed => {
            proof {
                reveal_strlit("Rollback failed");
            }
            "Rollback failed"
        },
    }
}

} // verus!
