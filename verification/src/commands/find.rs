//! How many workers the search for solutions runs.
use vstd::prelude::*;

verus! {

/// The number of workers for a search on `num_cores` cores: the number
/// requested; as many fewer than the cores where the request is negative; one
/// fewer than the cores where there is no request; and never less than one.
pub open spec fn worker_count(requested: Option<isize>, num_cores: int) -> int {
    let count = match requested {
        Some(c) => if c < 0 {
            num_cores + c
        } else {
            c as int
        },
        None => num_cores - 1,
    };
    if count < 1 {
        1
    } else {
        count
    }
}

/// Returns the number of workers for a search on `num_cores` cores.
pub fn determine_worker_count(requested: Option<isize>, num_cores: isize) -> (r: usize)
    requires
        num_cores >= 1,
    ensures
        r == worker_count(requested, num_cores as int),
{
    let count: isize = match requested {
        Some(c) => if c < 0 {
            num_cores + c
        } else {
            c
        },
        None => num_cores - 1,
    };
    if count < 1 {
        1
    } else {
        count as usize
    }
}

/// The running tally of a search: the patterns processed, those solved, and the
/// easiest and hardest solved start by the number of actions their solution took.
pub struct FindTally {
    pub count: u128,
    pub solved: u128,
    pub easiest: Option<String>,
    pub easiest_count: usize,
    pub hardest: Option<String>,
    pub hardest_count: usize,
}

impl FindTally {
    /// Returns the tally before any result: the easiest count starts at 10000
    /// and the hardest at 0, so the first solution sets both.
    pub fn new() -> (r: Self)
        ensures
            r.count == 0,
            r.solved == 0,
            r.easiest is None,
            r.easiest_count == 10000,
            r.hardest is None,
            r.hardest_count == 0,
    {
        FindTally {
            count: 0,
            solved: 0,
            easiest: None,
            easiest_count: 10000,
            hardest: None,
            hardest_count: 0,
        }
    }

    /// Counts one processed pattern: `solution` holds the packed start and the
    /// number of actions that solved it, or nothing when it was not solved. A
    /// solution with fewer actions than the easiest so far replaces it, and one
    /// with more than the hardest so far replaces that.
    pub fn record(&mut self, solution: Option<(String, usize)>)
        requires
            old(self).count < u128::MAX,
            old(self).solved < u128::MAX,
        ensures
            final(self).count == old(self).count + 1,
            final(self).solved == old(self).solved + if solution is Some {
                1int
            } else {
                0int
            },
            solution is None ==> {
                &&& final(self).easiest == old(self).easiest
                &&& final(self).easiest_count == old(self).easiest_count
                &&& final(self).hardest == old(self).hardest
                &&& final(self).hardest_count == old(self).hardest_count
            },
            solution matches Some((start, actions)) ==> {
                &&& if actions < old(self).easiest_count {
                    final(self).easiest == Some(start) && final(self).easiest_count == actions
                } else {
                    final(self).easiest == old(self).easiest && final(self).easiest_count
                        == old(self).easiest_count
                }
                &&& if actions > old(self).hardest_count {
                    final(self).hardest == Some(start) && final(self).hardest_count == actions
                } else {
                    final(self).hardest == old(self).hardest && final(self).hardest_count
                        == old(self).hardest_count
                }
            },
    {
        self.count = self.count + 1;
        if let Some((start, actions)) = solution {
            self.solved = self.solved + 1;
            if actions < self.easiest_count {
                self.easiest = Some(start.clone());
                self.easiest_count = actions;
            }
            if actions > self.hardest_count {
                self.hardest = Some(start);
                self.hardest_count = actions;
            }
        }
    }
}

} // verus!
