//! The search for the directory that holds an `.envrc`.

use vstd::prelude::*;

verus! {

/// One thing to do in the search. Each but the last ones is answered with yes or
/// no.
#[derive(Debug, Clone, Copy, PartialEq, Eq, Structural)]
pub enum EnvrcStep {
    /// Take the current directory. Is it known?
    TakeCurrentDir,
    /// Is there an `.envrc` in the directory?
    Probe,
    /// Go to the directory above. Is there one?
    Ascend,
    /// The directory is the one. Last step.
    Found,
    /// There is none. Last step.
    NotFound,
}

impl EnvrcStep {
    /// The step that follows, where `yes` is the answer.
    pub open spec fn successor(self, yes: bool) -> Option<EnvrcStep> {
        match self {
            EnvrcStep::TakeCurrentDir => Some(
                if yes {
                    EnvrcStep::Probe
                } else {
                    EnvrcStep::NotFound
                },
            ),
            EnvrcStep::Probe => Some(
                if yes {
                    EnvrcStep::Found
                } else {
                    EnvrcStep::Ascend
                },
            ),
            EnvrcStep::Ascend => Some(
                if yes {
                    EnvrcStep::Probe
                } else {
                    EnvrcStep::NotFound
                },
            ),
            EnvrcStep::Found => None,
            EnvrcStep::NotFound => None,
        }
    }

    /// The first step.
    pub fn first() -> (step: Self)
        ensures
            step == EnvrcStep::TakeCurrentDir,
    {
        EnvrcStep::TakeCurrentDir
    }

    /// The step that follows, where `yes` is the answer.
    pub fn next(self, yes: bool) -> (step: Option<Self>)
        ensures
            step == self.successor(yes),
    {
        match self {
            EnvrcStep::TakeCurrentDir => if yes {
                Some(EnvrcStep::Probe)
            } else {
                Some(EnvrcStep::NotFound)
            },
            EnvrcStep::Probe => if yes {
                Some(EnvrcStep::Found)
            } else {
                Some(EnvrcStep::Ascend)
            },
            EnvrcStep::Ascend => if yes {
                Some(EnvrcStep::Probe)
            } else {
                Some(EnvrcStep::NotFound)
            },
            EnvrcStep::Found => None,
            EnvrcStep::NotFound => None,
        }
    }
}

/// A search stands at a step, in one of the directories from the current one
/// (number zero) up to the root.
pub struct Search {
    pub step: EnvrcStep,
    pub dir: nat,
}

impl Search {
    /// The answer to the step, where `holds[i]` tells of the `i`-th directory whether
    /// it holds an `.envrc`.
    pub open spec fn answer(self, holds: Seq<bool>) -> bool {
        match self.step {
            EnvrcStep::TakeCurrentDir => holds.len() > 0,
            EnvrcStep::Probe => holds[self.dir as int],
            EnvrcStep::Ascend => self.dir + 1 < holds.len(),
            _ => false,
        }
    }

    /// The search one step later.
    pub open spec fn advanced(self, holds: Seq<bool>) -> Search {
        match self.step.successor(self.answer(holds)) {
            Some(step) => Search {
                step,
                dir: if self.step is Ascend && self.answer(holds) {
                    self.dir + 1
                } else {
                    self.dir
                },
            },
            None => self,
        }
    }

    /// The search `n` steps later.
    pub open spec fn after(self, holds: Seq<bool>, n: nat) -> Search
        decreases n,
    {
        if n == 0 {
            self
        } else {
            self.after(holds, (n - 1) as nat).advanced(holds)
        }
    }
}

/// A search at its start.
pub open spec fn search_start() -> Search {
    Search { step: EnvrcStep::TakeCurrentDir, dir: 0 }
}

/// While no directory so far holds an `.envrc`, the search comes to each in turn.
proof fn lemma_search_reaches(holds: Seq<bool>, dir: nat)
    requires
        dir < holds.len(),
        forall|i: int| 0 <= i < dir ==> !holds[i],
    ensures
        search_start().after(holds, 2 * dir + 1) == (Search { step: EnvrcStep::Probe, dir }),
    decreases dir,
{
    if dir == 0 {
        reveal_with_fuel(Search::after, 2);
    } else {
        let above = (dir - 1) as nat;
        lemma_search_reaches(holds, above);
        let n = 2 * above + 1;
        assert(search_start().after(holds, n + 1) == (Search {
            step: EnvrcStep::Ascend,
            dir: above,
        }));
        assert(search_start().after(holds, n + 2) == (Search { step: EnvrcStep::Probe, dir }));
    }
}

/// The search finds the nearest directory that holds an `.envrc`, from the current
/// one upwards.
pub proof fn law_search_finds_nearest(holds: Seq<bool>, dir: nat)
    requires
        dir < holds.len(),
        holds[dir as int],
        forall|i: int| 0 <= i < dir ==> !holds[i],
    ensures
        search_start().after(holds, 2 * dir + 2) == (Search { step: EnvrcStep::Found, dir }),
{
    lemma_search_reaches(holds, dir);
}

/// Where no directory holds an `.envrc`, or the current one is not known, the
/// search ends without one.
pub proof fn law_search_ends_at_root(holds: Seq<bool>)
    requires
        forall|i: int| 0 <= i < holds.len() ==> !holds[i],
    ensures
        search_start().after(holds, 2 * holds.len() + 1).step == EnvrcStep::NotFound,
{
    if holds.len() == 0 {
        reveal_with_fuel(Search::after, 2);
    } else {
        let root = (holds.len() - 1) as nat;
        lemma_search_reaches(holds, root);
        let n = 2 * root + 1;
        assert(search_start().after(holds, n + 1) == (Search { step: EnvrcStep::Ascend, dir: root }));
        assert(search_start().after(holds, n + 2).step == EnvrcStep::NotFound);
    }
}

/// `trace` is what comes of asking for the first step in the current directory and
/// then for the one that follows each: whether the current directory is known, whether
/// the directory holds an `.envrc`, and whether there is one above it, which is then
/// gone to. `holds[i]` tells of the `i`-th directory whether it holds an `.envrc`.
pub open spec fn is_search(trace: Seq<Search>, holds: Seq<bool>) -> bool {
    &&& trace.len() > 0
    &&& trace[0].dir == 0
    &&& call_ensures(EnvrcStep::first, (), trace[0].step)
    &&& forall|i: int|
        0 <= i < trace.len() - 1 ==> {
            let at = #[trigger] trace[i];
            let yes = if i == 0 {
                holds.len() > 0
            } else if at.step is Probe {
                holds[at.dir as int]
            } else {
                at.dir + 1 < holds.len()
            };
            &&& call_ensures(EnvrcStep::next, (at.step, yes), Some(trace[i + 1].step))
            &&& trace[i + 1].dir == (if at.step is Ascend && yes {
                at.dir + 1
            } else {
                at.dir
            })
        }
}

/// A search goes on until it has found something or there is nothing left.
pub proof fn law_search_ends_in_two_ways(step: EnvrcStep, yes: bool, next: Option<EnvrcStep>)
    requires
        call_ensures(EnvrcStep::next, (step, yes), next),
    ensures
        next is None <==> step == EnvrcStep::Found || step == EnvrcStep::NotFound,
{
}

/// What is asked for is the search.
proof fn lemma_trace_is_search(trace: Seq<Search>, holds: Seq<bool>, i: int)
    requires
        is_search(trace, holds),
        0 <= i < trace.len(),
    ensures
        trace[i] == search_start().after(holds, i as nat),
        i > 0 ==> trace[i].step != EnvrcStep::TakeCurrentDir,
    decreases i,
{
    if i > 0 {
        lemma_trace_is_search(trace, holds, i - 1);
        let at = trace[i - 1];
        assert(at.step.successor(at.answer(holds)) == Some(trace[i].step));
    }
}

/// A search that has gone far enough has found the nearest directory that holds an
/// `.envrc`: it has come to it from the current one, and ends there.
pub proof fn law_asking_finds_the_nearest(trace: Seq<Search>, holds: Seq<bool>, dir: nat)
    requires
        is_search(trace, holds),
        dir < holds.len(),
        holds[dir as int],
        forall|i: int| 0 <= i < dir ==> !holds[i],
        trace.len() > 2 * dir + 2,
    ensures
        trace[(2 * dir + 1) as int] == (Search { step: EnvrcStep::Probe, dir }),
        trace[(2 * dir + 2) as int] == (Search { step: EnvrcStep::Found, dir }),
{
    lemma_trace_is_search(trace, holds, (2 * dir + 1) as int);
    lemma_trace_is_search(trace, holds, (2 * dir + 2) as int);
    lemma_search_reaches(holds, dir);
    law_search_finds_nearest(holds, dir);
}

/// Where no directory holds an `.envrc`, or the current one is not known, a search
/// that has gone far enough has found nothing.
pub proof fn law_asking_ends_at_the_root(trace: Seq<Search>, holds: Seq<bool>)
    requires
        is_search(trace, holds),
        forall|i: int| 0 <= i < holds.len() ==> !holds[i],
        trace.len() > 2 * holds.len() + 1,
    ensures
        trace[(2 * holds.len() + 1) as int].step == EnvrcStep::NotFound,
{
    lemma_trace_is_search(trace, holds, (2 * holds.len() + 1) as int);
    law_search_ends_at_root(holds);
}

} // verus!
