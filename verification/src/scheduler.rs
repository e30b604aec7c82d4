//! Debounced rebuilds: a rebuild job submitted again before its delay has
//! passed replaces the pending one, so rapid changes coalesce into a single
//! rebuild. The delay itself is waited for outside; this state decides which
//! submission a finished wait may run.
use vstd::prelude::*;
use crate::text::{owned, str_eq};

verus! {

/// The token pending for `job` in `s`: the last entry for it, if any.
pub open spec fn token_of(s: Seq<(String, u64)>, job: Seq<char>) -> Option<u64>
    decreases s.len(),
{
    if s.len() == 0 {
        None
    } else if s.last().0@ == job {
        Some(s.last().1)
    } else {
        token_of(s.drop_last(), job)
    }
}

/// `s` without the entries for `job`.
pub open spec fn without(s: Seq<(String, u64)>, job: Seq<char>) -> Seq<(Seq<char>, u64)>
    decreases s.len(),
{
    if s.len() == 0 {
        Seq::empty()
    } else if s.last().0@ == job {
        without(s.drop_last(), job)
    } else {
        without(s.drop_last(), job).push((s.last().0@, s.last().1))
    }
}

/// Entries as text.
pub open spec fn entries_text(s: Seq<(String, u64)>) -> Seq<(Seq<char>, u64)> {
    s.map_values(|e: (String, u64)| (e.0@, e.1))
}

/// The token pending for `job` among entries given as text.
pub open spec fn token_in(s: Seq<(Seq<char>, u64)>, job: Seq<char>) -> Option<u64>
    decreases s.len(),
{
    if s.len() == 0 {
        None
    } else if s.last().0 == job {
        Some(s.last().1)
    } else {
        token_in(s.drop_last(), job)
    }
}

/// The token of a job is read the same from the entries and their text.
proof fn lemma_token_text(s: Seq<(String, u64)>, job: Seq<char>)
    ensures
        token_in(entries_text(s), job) == token_of(s, job),
    decreases s.len(),
{
    if s.len() > 0 {
        lemma_token_text(s.drop_last(), job);
        assert(entries_text(s).drop_last() =~= entries_text(s.drop_last()));
    }
}

/// Removing the entries of `job` leaves no token for it and keeps the others.
proof fn lemma_without(s: Seq<(String, u64)>, job: Seq<char>, k: Seq<char>)
    ensures
        token_in(without(s, job), k) == if k == job { None } else { token_of(s, k) },
    decreases s.len(),
{
    if s.len() > 0 {
        lemma_without(s.drop_last(), job, k);
        let w = without(s.drop_last(), job);
        if s.last().0@ != job {
            assert(without(s, job) == w.push((s.last().0@, s.last().1)));
            assert(w.push((s.last().0@, s.last().1)).drop_last() =~= w);
        }
    }
}

/// Pending rebuild jobs, each with the token of its latest submission, and
/// the token the next submission gets.
pub struct Debouncer {
    pending: Vec<(String, u64)>,
    next_token: u64,
}

impl Debouncer {
    /// The token pending for `job`, if any.
    pub closed spec fn pending_token(&self, job: Seq<char>) -> Option<u64> {
        token_of(self.pending@, job)
    }

    /// The token the next submission gets.
    pub closed spec fn next(&self) -> u64 {
        self.next_token
    }

    /// Every pending token was given out before the next one.
    pub closed spec fn wf(&self) -> bool {
        forall|j: int| 0 <= j < self.pending@.len() ==> (#[trigger] self.pending@[j]).1 < self.next_token
    }

    /// No job pending; tokens start at zero.
    pub fn new() -> (d: Debouncer)
        ensures
            d.wf(),
            d.next() == 0,
            forall|job: Seq<char>| d.pending_token(job) is None,
    {
        Debouncer { pending: Vec::new(), next_token: 0 }
    }

    fn without_job(&self, job: &str) -> (res: Vec<(String, u64)>)
        ensures
            entries_text(res@) == without(self.pending@, job@),
            forall|j: int| 0 <= j < res@.len() ==> exists|q: int| 0 <= q < self.pending@.len() && (#[trigger] res@[j]).1 == self.pending@[q].1,
    {
        let mut out: Vec<(String, u64)> = Vec::new();
        let mut i: usize = 0;
        proof {
            assert(self.pending@.take(0) =~= Seq::<(String, u64)>::empty());
            assert(entries_text(out@) =~= Seq::<(Seq<char>, u64)>::empty());
        }
        while i < self.pending.len()
            invariant
                i <= self.pending@.len(),
                entries_text(out@) == without(self.pending@.take(i as int), job@),
                forall|j: int| 0 <= j < out@.len() ==> exists|q: int| 0 <= q < self.pending@.len() && (#[trigger] out@[j]).1 == self.pending@[q].1,
            decreases self.pending.len() - i,
        {
            let (name, tok) = (&self.pending[i].0, self.pending[i].1);
            proof {
                assert(self.pending@.take(i + 1).drop_last() =~= self.pending@.take(i as int));
                assert(self.pending@.take(i + 1).last() == self.pending@[i as int]);
            }
            if !str_eq(name.as_str(), job) {
                let ghost before = out@;
                out.push((owned(name.as_str()), tok));
                proof {
                    assert(entries_text(out@) =~= entries_text(before).push((name@, tok)));
                    assert forall|j: int| 0 <= j < out@.len() implies exists|q: int| 0 <= q < self.pending@.len()
                        && (#[trigger] out@[j]).1 == self.pending@[q].1 by {
                        if j < before.len() {
                            assert(out@[j] == before[j]);
                        } else {
                            assert(out@[j].1 == self.pending@[i as int].1);
                        }
                    }
                }
            }
            i = i + 1;
        }
        proof {
            assert(self.pending@.take(self.pending@.len() as int) =~= self.pending@);
        }
        out
    }

    /// Submits a rebuild of `job`: the new submission gets the next token and
    /// replaces the one pending for the job, whose token is returned so that
    /// its wait can be cancelled. Other jobs are untouched.
    pub fn submit(&mut self, job: &str) -> (res: (Option<u64>, u64))
        requires
            old(self).wf(),
            old(self).next() < u64::MAX,
        ensures
            final(self).wf(),
            res.0 == old(self).pending_token(job@),
            res.1 == old(self).next(),
            final(self).next() == old(self).next() + 1,
            final(self).pending_token(job@) == Some(res.1),
            forall|k: Seq<char>| k != job@ ==> final(self).pending_token(k) == old(self).pending_token(k),
    {
        let cancelled = self.pending_of(job);
        let token = self.next_token;
        let mut rest = self.without_job(job);
        let ghost kept = rest@;
        rest.push((owned(job), token));
        proof {
            assert forall|k: Seq<char>| k != job@ implies token_of(rest@, k) == token_of(self.pending@, k) by {
                assert(rest@.drop_last() =~= kept);
                lemma_token_text(kept, k);
                lemma_without(self.pending@, job@, k);
            }
            assert forall|j: int| 0 <= j < rest@.len() implies (#[trigger] rest@[j]).1 < token + 1 by {
                if j < kept.len() {
                    assert(rest@[j] == kept[j]);
                    let q = choose|q: int| 0 <= q < self.pending@.len() && kept[j].1 == self.pending@[q].1;
                    assert(self.pending@[q].1 < token);
                }
            }
        }
        self.pending = rest;
        self.next_token = token + 1;
        (cancelled, token)
    }

    fn pending_of(&self, job: &str) -> (res: Option<u64>)
        ensures
            res == self.pending_token(job@),
    {
        let mut i = self.pending.len();
        proof {
            assert(self.pending@.take(i as int) =~= self.pending@);
        }
        while i > 0
            invariant
                i <= self.pending@.len(),
                token_of(self.pending@, job@) == token_of(self.pending@.take(i as int), job@),
            decreases i,
        {
            proof {
                assert(self.pending@.take(i as int).drop_last() =~= self.pending@.take(i - 1));
                assert(self.pending@.take(i as int).last() == self.pending@[i - 1]);
            }
            if str_eq(self.pending[i - 1].0.as_str(), job) {
                return Some(self.pending[i - 1].1);
            }
            i = i - 1;
        }
        None
    }

    /// The wait of submission `token` of `job` has ended: it runs only when it
    /// is still the pending submission of the job, which is then no longer
    /// pending. Other jobs are untouched.
    pub fn fire(&mut self, job: &str, token: u64) -> (run: bool)
        requires
            old(self).wf(),
        ensures
            final(self).wf(),
            run == (old(self).pending_token(job@) == Some(token)),
            final(self).next() == old(self).next(),
            run ==> final(self).pending_token(job@) is None,
            !run ==> final(self).pending_token(job@) == old(self).pending_token(job@),
            forall|k: Seq<char>| k != job@ ==> final(self).pending_token(k) == old(self).pending_token(k),
    {
        let current = self.pending_of(job);
        let run = match current {
            Some(t) => t == token,
            None => false,
        };
        if run {
            let rest = self.without_job(job);
            proof {
                assert forall|k: Seq<char>| token_of(rest@, k) == (if k == job@ { None } else { token_of(self.pending@, k) }) by {
                    lemma_token_text(rest@, k);
                    lemma_without(self.pending@, job@, k);
                }
                assert forall|j: int| 0 <= j < rest@.len() implies (#[trigger] rest@[j]).1 < self.next_token by {
                    let q = choose|q: int| 0 <= q < self.pending@.len() && rest@[j].1 == self.pending@[q].1;
                    assert(self.pending@[q].1 < self.next_token);
                }
            }
            self.pending = rest;
        }
        run
    }
}

/// Of two submissions of a job, only the later one runs: after submitting
/// `job` twice, the wait of the first submission finds it replaced, and the
/// wait of the second runs it.
pub proof fn lemma_latest_submission_runs(d0: Debouncer, d1: Debouncer, d2: Debouncer, job: Seq<char>, t1: u64, t2: u64)
    requires
        t1 == d0.next(),
        d1.next() == d0.next() + 1,
        d1.pending_token(job) == Some(t1),
        t2 == d1.next(),
        d2.pending_token(job) == Some(t2),
    ensures
        d2.pending_token(job) != Some(t1),
        d2.pending_token(job) == Some(t2),
{
}

} // verus!
