//! Aggregation of integrity-verifier results.
//!
//! The verifier itself is an external process run by the caller; the
//! library only counts and judges its verdicts.

use vstd::prelude::*;

verus! {

/// The verifier's verdict on one repository.
#[derive(Debug)]
pub struct FsckResult {
    /// Root path of the repository checked.
    pub repo: String,
    /// Whether the check passed.
    pub success: bool,
    /// Exit code of the verifier process, if it ran.
    pub code: Option<i32>,
    /// Diagnostic text; may be empty on success.
    pub stderr: String,
}

impl Clone for FsckResult {
    fn clone(&self) -> (r: Self)
        ensures
            r == *self,
    {
        FsckResult {
            repo: self.repo.clone(),
            success: self.success,
            code: self.code,
            stderr: self.stderr.clone(),
        }
    }
}

/// How many verdicts of `s` report failure.
pub open spec fn count_failed(s: Seq<FsckResult>) -> nat
    decreases s.len(),
{
    if s.len() == 0 {
        0
    } else {
        count_failed(s.drop_last()) + if s.last().success {
            0nat
        } else {
            1nat
        }
    }
}

proof fn lemma_count_failed_zero(s: Seq<FsckResult>)
    ensures
        (count_failed(s) == 0) <==> (forall|i: int| 0 <= i < s.len() ==> (#[trigger] s[i]).success),
    decreases s.len(),
{
    if s.len() > 0 {
        lemma_count_failed_zero(s.drop_last());
        if count_failed(s) == 0 {
            assert forall|i: int| 0 <= i < s.len() implies (#[trigger] s[i]).success by {
                if i < s.len() - 1 {
                    assert(s.drop_last()[i] == s[i]);
                }
            }
        } else if forall|i: int| 0 <= i < s.len() ==> (#[trigger] s[i]).success {
            assert forall|i: int| 0 <= i < s.drop_last().len() implies (
            #[trigger] s.drop_last()[i]).success by {
                assert(s.drop_last()[i] == s[i]);
            }
        }
    }
}

/// The collected verdicts of one run.
#[derive(Debug, Default)]
pub struct FsckSummary {
    /// One verdict per repository checked.
    pub results: Vec<FsckResult>,
}

impl FsckSummary {
    /// An empty summary.
    pub fn new() -> (r: Self)
        ensures
            r.results@.len() == 0,
    {
        FsckSummary { results: Vec::new() }
    }

    /// How many repositories were checked.
    pub fn total(&self) -> (r: usize)
        ensures
            r == self.results@.len(),
    {
        self.results.len()
    }

    /// How many checks failed.
    pub fn failed(&self) -> (r: usize)
        ensures
            r == count_failed(self.results@),
    {
        let mut count: usize = 0;
        let mut i: usize = 0;
        while i < self.results.len()
            invariant
                0 <= i <= self.results@.len(),
                count == count_failed(self.results@.take(i as int)),
                count <= i,
            decreases self.results@.len() - i,
        {
            let ghost prefix = self.results@.take(i as int);
            if !self.results[i].success {
                count = count + 1;
            }
            proof {
                let next = self.results@.take(i as int + 1);
                assert(next.drop_last() =~= prefix);
                assert(next.last() == self.results@[i as int]);
            }
            i = i + 1;
        }
        proof {
            assert(self.results@.take(self.results@.len() as int) =~= self.results@);
        }
        count
    }

    /// Whether every check passed.
    pub fn all_success(&self) -> (r: bool)
        ensures
            r == (count_failed(self.results@) == 0),
            r <==> (forall|i: int|
                0 <= i < self.results@.len() ==> (#[trigger] self.results@[i]).success),
    {
        proof {
            lemma_count_failed_zero(self.results@);
        }
        self.failed() == 0
    }
}

} // verus!
