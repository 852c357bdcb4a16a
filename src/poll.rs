//! Decisions of the periodic walk over the platform's workflow runs, which
//! recovers jobs whose webhooks were missed.
use vstd::prelude::*;

use crate::triplet::OwnerAndRepo;

verus! {

/// Runs older than this many seconds end the walk for new runs: one day.
pub const MAX_NEW_RUN_AGE_SECS: i64 = 86400;

/// How many runs of a page, newest first, are new: those before the first
/// run that was seen in an earlier poll (`previous`) or that is older than
/// `max_age` seconds at time `now`.
pub open spec fn new_run_count(runs: Seq<(u64, i64)>, previous: Option<u64>, now: i64, max_age: i64) -> nat
    decreases runs.len(),
{
    if runs.len() == 0 {
        0
    } else if previous == Some(runs[0].0) || now - runs[0].1 > max_age {
        0
    } else {
        1 + new_run_count(runs.skip(1), previous, now, max_age)
    }
}

/// The new runs of one page of runs `(id, created_at)`, newest first, and
/// whether the walk stops with this page (an empty page stops it too).
pub fn new_runs(runs: &Vec<(u64, i64)>, previous: Option<u64>, now: i64, max_age: i64) -> (r: (Vec<u64>, bool))
    ensures
        r.0@.len() == new_run_count(runs@, previous, now, max_age),
        forall|k: int| 0 <= k < r.0@.len() ==> #[trigger] r.0@[k] == runs@[k].0,
        r.1 == (runs@.len() == 0 || new_run_count(runs@, previous, now, max_age) < runs@.len()),
{
    let mut ids: Vec<u64> = Vec::new();
    let mut i: usize = 0;
    assert(runs@.skip(0) =~= runs@);
    while i < runs.len()
        invariant
            i <= runs@.len(),
            ids@.len() == i,
            forall|k: int| 0 <= k < i ==> #[trigger] ids@[k] == runs@[k].0,
            new_run_count(runs@, previous, now, max_age) == i + new_run_count(
                runs@.skip(i as int),
                previous,
                now,
                max_age,
            ),
        decreases runs@.len() - i,
    {
        let (id, created_at) = runs[i];
        assert(runs@.skip(i as int)[0] == runs@[i as int]);
        assert(runs@.skip(i as int).skip(1) =~= runs@.skip(i + 1));
        let age = now as i128 - created_at as i128;
        if previous == Some(id) || age > max_age as i128 {
            assert(new_run_count(runs@.skip(i as int), previous, now, max_age) == 0);
            return (ids, true);
        }
        ids.push(id);
        i = i + 1;
    }
    assert(runs@.skip(i as int) =~= Seq::<(u64, i64)>::empty());
    (ids, runs.len() == 0)
}

/// The runs of interest that belong to repository `oar`.
pub fn runs_of(runs: &Vec<(OwnerAndRepo, u64)>, oar: &OwnerAndRepo) -> (r: Vec<u64>)
    ensures
        forall|id: u64|
            r@.contains(id) <==> exists|k: int|
                0 <= k < runs@.len() && (#[trigger] runs@[k]).0@ == oar@ && runs@[k].1 == id,
{
    let mut r: Vec<u64> = Vec::new();
    let mut i: usize = 0;
    while i < runs.len()
        invariant
            i <= runs@.len(),
            forall|id: u64|
                r@.contains(id) <==> exists|k: int|
                    0 <= k < i && (#[trigger] runs@[k]).0@ == oar@ && runs@[k].1 == id,
        decreases runs@.len() - i,
    {
        let ghost prev = r@;
        if runs[i].0.same(oar) {
            r.push(runs[i].1);
        }
        proof {
            assert forall|id: u64|
                r@.contains(id) <==> exists|k: int|
                    0 <= k < i + 1 && (#[trigger] runs@[k]).0@ == oar@ && runs@[k].1 == id by {
                if r@.contains(id) {
                    let j = choose|j: int| 0 <= j < r@.len() && r@[j] == id;
                    if j < prev.len() {
                        assert(prev[j] == id);
                        assert(prev.contains(id));
                    } else {
                        assert(runs@[i as int].0@ == oar@ && runs@[i as int].1 == id);
                    }
                }
                if exists|k: int| 0 <= k < i + 1 && (#[trigger] runs@[k]).0@ == oar@ && runs@[k].1 == id {
                    let k = choose|k: int| 0 <= k < i + 1 && (#[trigger] runs@[k]).0@ == oar@ && runs@[k].1 == id;
                    if k < i {
                        assert(prev.contains(id));
                        let j = choose|j: int| 0 <= j < prev.len() && prev[j] == id;
                        assert(r@[j] == id);
                    } else {
                        assert(r@[r@.len() - 1] == id);
                    }
                }
            }
        }
        i = i + 1;
    }
    r
}

} // verus!
