//! The command-line settings of the tool and their grammar.
//!
//! The grammar covers what the tool accepts: the flags below in any
//! order and position, every other token a search path.  Combined
//! short flags and `--` separators are not part of it.

use vstd::prelude::*;
use vstd::string::StrSliceExecFns;
use vstd::string::StringExecFns;

use crate::text::str_eq;

verus! {

/// The settings of one run.
#[derive(Debug)]
pub struct Args {
    /// Directories to search; `.` when none was given.
    pub paths: Vec<String>,
    /// Report planned groups only, replace nothing.
    pub dry_run: bool,
    /// Print progress and per-file results.
    pub verbose: bool,
    /// Skip the integrity checks.
    pub no_fsck: bool,
    /// Run the integrity checks only, replace nothing.
    pub fsck_only: bool,
}

/// A token that names a flag: it starts with `-`.
pub open spec fn is_flag_token(s: Seq<char>) -> bool {
    s.len() >= 1 && s[0] == '-'
}

/// The flags the grammar knows.
pub open spec fn known_flag(s: Seq<char>) -> bool {
    ||| s == "-n"@
    ||| s == "--dry-run"@
    ||| s == "-v"@
    ||| s == "--verbose"@
    ||| s == "--no-fsck"@
    ||| s == "--fsck-only"@
}

/// Whether one of the first `n` arguments (the program name aside) is
/// the given short or long flag.
pub open spec fn flag_given_upto(argv: Seq<String>, n: int, short: Seq<char>, long: Seq<char>) -> bool {
    exists|i: int| 1 <= i < n && ((#[trigger] argv[i])@ == short || argv[i]@ == long)
}

/// Whether one of the arguments is the given short or long flag.
pub open spec fn flag_given(argv: Seq<String>, short: Seq<char>, long: Seq<char>) -> bool {
    flag_given_upto(argv, argv.len() as int, short, long)
}

/// The predicate selecting tokens that are not flags.
pub open spec fn positional_pred() -> spec_fn(String) -> bool {
    |s: String| !is_flag_token(s@)
}

/// The non-flag arguments, the program name aside, in order.
pub open spec fn positionals(argv: Seq<String>) -> Seq<String> {
    if argv.len() >= 1 {
        argv.subrange(1, argv.len() as int).filter(positional_pred())
    } else {
        Seq::empty()
    }
}

impl Args {
    /// Parses a full argument vector, program name first.  Returns
    /// `None` exactly when some argument starts with `-` but is none
    /// of the known flags; otherwise each flag field says whether its
    /// flag was given, and `paths` holds the non-flag arguments in
    /// order, or `.` alone when there were none.
    pub fn parse_from(argv: &Vec<String>) -> (r: Option<Args>)
        ensures
            match r {
                Some(a) => {
                    &&& forall|i: int|
                        1 <= i < argv@.len() && is_flag_token((#[trigger] argv@[i])@)
                            ==> known_flag(argv@[i]@)
                    &&& a.dry_run == flag_given(argv@, "-n"@, "--dry-run"@)
                    &&& a.verbose == flag_given(argv@, "-v"@, "--verbose"@)
                    &&& a.no_fsck == flag_given(argv@, "--no-fsck"@, "--no-fsck"@)
                    &&& a.fsck_only == flag_given(argv@, "--fsck-only"@, "--fsck-only"@)
                    &&& if positionals(argv@).len() == 0 {
                        a.paths@.len() == 1 && a.paths@[0]@ == "."@
                    } else {
                        a.paths@.len() == positionals(argv@).len() && forall|j: int|
                            0 <= j < a.paths@.len() ==> (#[trigger] a.paths@[j])@ == positionals(
                                argv@,
                            )[j]@
                    }
                },
                None => exists|i: int|
                    1 <= i < argv@.len() && is_flag_token((#[trigger] argv@[i])@) && !known_flag(
                        argv@[i]@,
                    ),
            },
    {
        let ghost pp = positional_pred();
        if argv.len() == 0 {
            let mut paths: Vec<String> = Vec::new();
            paths.push(String::from_str("."));
            return Some(
                Args { paths, dry_run: false, verbose: false, no_fsck: false, fsck_only: false },
            );
        }
        let mut paths: Vec<String> = Vec::new();
        let mut dry_run = false;
        let mut verbose = false;
        let mut no_fsck = false;
        let mut fsck_only = false;
        let mut i: usize = 1;
        while i < argv.len()
            invariant
                argv@.len() >= 1,
                1 <= i <= argv@.len(),
                pp == positional_pred(),
                forall|t: int|
                    1 <= t < i && is_flag_token((#[trigger] argv@[t])@) ==> known_flag(argv@[t]@),
                dry_run == flag_given_upto(argv@, i as int, "-n"@, "--dry-run"@),
                verbose == flag_given_upto(argv@, i as int, "-v"@, "--verbose"@),
                no_fsck == flag_given_upto(argv@, i as int, "--no-fsck"@, "--no-fsck"@),
                fsck_only == flag_given_upto(argv@, i as int, "--fsck-only"@, "--fsck-only"@),
                paths@ == argv@.subrange(1, i as int).filter(pp),
            decreases argv@.len() - i,
        {
            let ghost prefix = argv@.subrange(1, i as int);
            let ghost cur = argv@[i as int];
            let s = argv[i].as_str();
            let flagged = s.unicode_len() >= 1 && s.get_char(0) == '-';
            assert(flagged == is_flag_token(cur@));
            if flagged {
                if str_eq(s, "-n") || str_eq(s, "--dry-run") {
                    dry_run = true;
                } else if str_eq(s, "-v") || str_eq(s, "--verbose") {
                    verbose = true;
                } else if str_eq(s, "--no-fsck") {
                    no_fsck = true;
                } else if str_eq(s, "--fsck-only") {
                    fsck_only = true;
                } else {
                    assert(is_flag_token(cur@) && !known_flag(cur@));
                    return None;
                }
            } else {
                paths.push(argv[i].clone());
            }
            proof {
                reveal_strlit("-n");
                reveal_strlit("--dry-run");
                reveal_strlit("-v");
                reveal_strlit("--verbose");
                reveal_strlit("--no-fsck");
                reveal_strlit("--fsck-only");
                assert(is_flag_token("-n"@) && is_flag_token("--dry-run"@) && is_flag_token("-v"@)
                    && is_flag_token("--verbose"@) && is_flag_token("--no-fsck"@)
                    && is_flag_token("--fsck-only"@));
                assert("-n"@.len() == 2 && "-n"@[0] == '-' && "-n"@[1] == 'n');
                assert("-v"@.len() == 2 && "-v"@[0] == '-' && "-v"@[1] == 'v');
                assert("--dry-run"@.len() == 9 && "--dry-run"@[0] == '-' && "--dry-run"@[2]
                    == 'd');
                assert("--verbose"@.len() == 9 && "--verbose"@[0] == '-' && "--verbose"@[2]
                    == 'v');
                assert("--no-fsck"@.len() == 9 && "--no-fsck"@[0] == '-' && "--no-fsck"@[2]
                    == 'n');
                assert("--fsck-only"@.len() == 11 && "--fsck-only"@[0] == '-');
                assert("-n"@ != "-v"@ && "-n"@ != "--verbose"@ && "-n"@ != "--no-fsck"@
                    && "-n"@ != "--fsck-only"@);
                assert("--dry-run"@ != "-v"@ && "--dry-run"@ != "--verbose"@ && "--dry-run"@
                    != "--no-fsck"@ && "--dry-run"@ != "--fsck-only"@);
                assert("-v"@ != "--no-fsck"@ && "-v"@ != "--fsck-only"@);
                assert("--verbose"@ != "--no-fsck"@ && "--verbose"@ != "--fsck-only"@);
                assert("--no-fsck"@ != "--fsck-only"@);
                assert(argv@.subrange(1, i as int + 1) =~= prefix.push(cur));
                prefix.lemma_filter_push(cur, pp);
                let ii = i as int;
                assert(dry_run == flag_given_upto(argv@, ii + 1, "-n"@, "--dry-run"@)) by {
                    if dry_run && !flag_given_upto(argv@, ii, "-n"@, "--dry-run"@) {
                        assert(cur@ == "-n"@ || cur@ == "--dry-run"@);
                        assert(1 <= ii < ii + 1 && (argv@[ii]@ == "-n"@ || argv@[ii]@
                            == "--dry-run"@));
                    }
                    if !dry_run {
                        if flag_given_upto(argv@, ii + 1, "-n"@, "--dry-run"@) {
                            let t = choose|t: int|
                                1 <= t < ii + 1 && ((#[trigger] argv@[t])@ == "-n"@ || argv@[t]@
                                    == "--dry-run"@);
                            assert(t < ii);
                            assert(flag_given_upto(argv@, ii, "-n"@, "--dry-run"@));
                        }
                    }
                }
                assert(verbose == flag_given_upto(argv@, ii + 1, "-v"@, "--verbose"@)) by {
                    if verbose && !flag_given_upto(argv@, ii, "-v"@, "--verbose"@) {
                        assert(1 <= ii < ii + 1 && (argv@[ii]@ == "-v"@ || argv@[ii]@
                            == "--verbose"@));
                    }
                    if !verbose {
                        if flag_given_upto(argv@, ii + 1, "-v"@, "--verbose"@) {
                            let t = choose|t: int|
                                1 <= t < ii + 1 && ((#[trigger] argv@[t])@ == "-v"@ || argv@[t]@
                                    == "--verbose"@);
                            assert(t < ii);
                            assert(flag_given_upto(argv@, ii, "-v"@, "--verbose"@));
                        }
                    }
                }
                assert(no_fsck == flag_given_upto(argv@, ii + 1, "--no-fsck"@, "--no-fsck"@)) by {
                    if no_fsck && !flag_given_upto(argv@, ii, "--no-fsck"@, "--no-fsck"@) {
                        assert(1 <= ii < ii + 1 && argv@[ii]@ == "--no-fsck"@);
                    }
                    if !no_fsck {
                        if flag_given_upto(argv@, ii + 1, "--no-fsck"@, "--no-fsck"@) {
                            let t = choose|t: int|
                                1 <= t < ii + 1 && ((#[trigger] argv@[t])@ == "--no-fsck"@
                                    || argv@[t]@ == "--no-fsck"@);
                            assert(t < ii);
                            assert(flag_given_upto(argv@, ii, "--no-fsck"@, "--no-fsck"@));
                        }
                    }
                }
                assert(fsck_only == flag_given_upto(argv@, ii + 1, "--fsck-only"@, "--fsck-only"@))
                    by {
                    if fsck_only && !flag_given_upto(argv@, ii, "--fsck-only"@, "--fsck-only"@) {
                        assert(1 <= ii < ii + 1 && argv@[ii]@ == "--fsck-only"@);
                    }
                    if !fsck_only {
                        if flag_given_upto(argv@, ii + 1, "--fsck-only"@, "--fsck-only"@) {
                            let t = choose|t: int|
                                1 <= t < ii + 1 && ((#[trigger] argv@[t])@ == "--fsck-only"@
                                    || argv@[t]@ == "--fsck-only"@);
                            assert(t < ii);
                            assert(flag_given_upto(argv@, ii, "--fsck-only"@, "--fsck-only"@));
                        }
                    }
                }
            }
            i = i + 1;
        }
        if paths.len() == 0 {
            paths.push(String::from_str("."));
        }
        Some(Args { paths, dry_run, verbose, no_fsck, fsck_only })
    }
}

} // verus!
