//! The search for a free index, as a machine that asks one question at a
//! time.
//!
//! The indices `1, 2, 3, ...` number the candidate names. The search keeps a
//! window of indices and asks whether single indices are taken:
//!
//! 1. It asks for the upper end of the window, which starts at 16 and moves
//!    up by 32 for as long as the index at the upper end is taken.
//! 2. Once the upper end is free, and unless the window was never moved, it
//!    asks for the index 16 below the upper end, and keeps the upper half of
//!    the last 32 indices where that index is taken, the lower half where it
//!    is free.
//! 3. It asks for the 16 indices of the half that it kept, from the lowest
//!    up, and settles on the first that is free.
//!
//! Whoever owns the directory answers the questions; the machine only decides
//! what to ask next. The index it settles on is free, but it need not be the
//! lowest free index: a gap below the window that is scanned goes unnoticed.

use vstd::prelude::*;

verus! {

/// The upper end of the first window.
pub const FIRST_TOP: u64 = 16;

/// How far the upper end moves while it is taken.
pub const STRIDE: u64 = 32;

/// How many indices the final scan covers.
pub const REACH: u64 = 16;

/// The state of a search: which phase it is in, and the index it asks for.
#[derive(Clone, Copy, Debug, PartialEq, Eq)]
pub enum Search {
    /// Asking for the upper end `top` of the window.
    Widen { top: u64 },
    /// Asking for the index in the middle between `top - 32` and the free
    /// upper end `top`.
    Halve { top: u64 },
    /// Asking for `next`, in a scan that ends with `last`.
    Scan { next: u64, last: u64 },
}

/// What a search does once a question is answered.
#[derive(Clone, Copy, Debug, PartialEq, Eq)]
pub enum Step {
    /// It goes on, and has another question.
    Ask(Search),
    /// It settles on this index, which was just reported free.
    Found(u64),
    /// It gives up: the window cannot move further up, or every index of
    /// the scan was reported taken.
    GiveUp,
}

impl Search {
    /// Whether the state is one that a search can be in.
    pub open spec fn wf(self) -> bool {
        match self {
            Search::Widen { top } => top % 32 == 16,
            Search::Halve { top } => top % 32 == 16 && top >= 48,
            Search::Scan { next, last } => 1 <= next <= last && last % 16 == 0 && last - next < 16,
        }
    }

    /// The index that the search asks for.
    pub open spec fn index(self) -> int {
        match self {
            Search::Widen { top } => top as int,
            Search::Halve { top } => top - 16,
            Search::Scan { next, last } => next as int,
        }
    }

    /// What the search does when told whether `self.index()` is taken.
    pub open spec fn next(self, taken: bool) -> Step {
        match self {
            Search::Widen { top } => if taken {
                if top + 32 <= u64::MAX {
                    Step::Ask(Search::Widen { top: (top + 32) as u64 })
                } else {
                    Step::GiveUp
                }
            } else if top > 16 {
                Step::Ask(Search::Halve { top })
            } else {
                Step::Ask(Search::Scan { next: 1, last: 16 })
            },
            Search::Halve { top } => if taken {
                Step::Ask(Search::Scan { next: (top - 15) as u64, last: top })
            } else {
                Step::Ask(Search::Scan { next: (top - 31) as u64, last: (top - 16) as u64 })
            },
            Search::Scan { next, last } => if !taken {
                Step::Found(next)
            } else if next < last {
                Step::Ask(Search::Scan { next: (next + 1) as u64, last })
            } else {
                Step::GiveUp
            },
        }
    }

    /// A bound on the number of questions that the search still asks.
    pub open spec fn questions_left(self) -> nat {
        match self {
            Search::Widen { top } => (u64::MAX - top + 18) as nat,
            Search::Halve { top } => 17,
            Search::Scan { next, last } => if next <= last {
                (last - next + 1) as nat
            } else {
                0
            },
        }
    }

    /// The search at its start: it asks for the upper end of the first window.
    pub fn new() -> (s: Search)
        ensures
            s == (Search::Widen { top: FIRST_TOP }),
            s.wf(),
    {
        Search::Widen { top: FIRST_TOP }
    }

    /// The index that the search asks for.
    pub fn probe(&self) -> (i: u64)
        requires
            self.wf(),
        ensures
            i == self.index(),
            i >= 1,
    {
        match *self {
            Search::Widen { top } => top,
            Search::Halve { top } => top - REACH,
            Search::Scan { next, last } => next,
        }
    }

    /// Takes the answer to the question asked: whether the index
    /// `self.probe()` is taken.
    pub fn step(self, taken: bool) -> (r: Step)
        requires
            self.wf(),
        ensures
            r == self.next(taken),
            r matches Step::Ask(s) ==> s.wf() && s.questions_left() < self.questions_left(),
            r matches Step::Found(i) ==> i == self.index() && !taken,
    {
        match self {
            Search::Widen { top } => {
                if taken {
                    if top <= u64::MAX - STRIDE {
                        Step::Ask(Search::Widen { top: top + STRIDE })
                    } else {
                        Step::GiveUp
                    }
                } else if top > FIRST_TOP {
                    Step::Ask(Search::Halve { top })
                } else {
                    Step::Ask(Search::Scan { next: 1, last: REACH })
                }
            },
            Search::Halve { top } => {
                if taken {
                    Step::Ask(Search::Scan { next: top - REACH + 1, last: top })
                } else {
                    Step::Ask(Search::Scan { next: top - STRIDE + 1, last: top - REACH })
                }
            },
            Search::Scan { next, last } => {
                if !taken {
                    Step::Found(next)
                } else if next < last {
                    Step::Ask(Search::Scan { next: next + 1, last })
                } else {
                    Step::GiveUp
                }
            },
        }
    }
}

/// The first upper end at or above `top`, in steps of 32, that is not taken,
/// as far as indices reach.
pub open spec fn free_top(taken: Set<int>, top: int) -> Option<int>
    decreases u64::MAX - top + 32,
{
    if top > u64::MAX {
        None
    } else if !taken.contains(top) {
        Some(top)
    } else {
        free_top(taken, top + 32)
    }
}

/// The index below the 16 indices that are scanned once the upper end `top`
/// is free: the scan covers the upper half of the last 32 indices where the
/// middle is taken, the lower half where it is free, and the first window
/// where the upper end never moved.
pub open spec fn scan_base(taken: Set<int>, top: int) -> int {
    if top <= 16 {
        0
    } else if taken.contains(top - 16) {
        top - 16
    } else {
        top - 32
    }
}

/// The first index from `next` to `last` that is not taken.
pub open spec fn first_free(taken: Set<int>, next: int, last: int) -> Option<int>
    decreases last - next + 1,
{
    if next > last {
        None
    } else if !taken.contains(next) {
        Some(next)
    } else {
        first_free(taken, next + 1, last)
    }
}

/// The index that a search in state `s` settles on where `taken` holds the
/// indices that are taken.
pub open spec fn outcome(s: Search, taken: Set<int>) -> Option<int> {
    match s {
        Search::Widen { top } => match free_top(taken, top as int) {
            Some(free) => first_free(
                taken,
                scan_base(taken, free) + 1,
                scan_base(taken, free) + 16,
            ),
            None => None,
        },
        Search::Halve { top } => first_free(
            taken,
            scan_base(taken, top as int) + 1,
            scan_base(taken, top as int) + 16,
        ),
        Search::Scan { next, last } => first_free(taken, next as int, last as int),
    }
}

/// The index that a search from the start settles on where `taken` holds the
/// indices that are taken: with `top` the first of 16, 48, 80, ... that is
/// free, the first free index of the 16 above `scan_base(taken, top)`.
pub open spec fn resolved(taken: Set<int>) -> Option<int> {
    outcome(Search::Widen { top: FIRST_TOP }, taken)
}

/// Answering a question truthfully does not change what the search settles
/// on: the next state has the same outcome, an index found is the outcome,
/// and the search gives up only where there is no outcome.
pub proof fn lemma_step_keeps_outcome(s: Search, taken: Set<int>)
    requires
        s.wf(),
    ensures
        match s.next(taken.contains(s.index())) {
            Step::Ask(after) => outcome(after, taken) == outcome(s, taken),
            Step::Found(i) => outcome(s, taken) == Some(i as int),
            Step::GiveUp => outcome(s, taken) is None,
        },
{
    match s {
        Search::Widen { top } => {
            if taken.contains(top as int) && top + 32 > u64::MAX {
                assert(free_top(taken, top + 32) is None);
            }
        },
        Search::Halve { top } => {},
        Search::Scan { next, last } => {
            if taken.contains(next as int) && next == last {
                assert(first_free(taken, next + 1, last as int) is None);
            }
        },
    }
}

/// `first_free` finds a free index in its range, passes over taken indices
/// only, and finds one wherever the range holds a free index.
pub proof fn lemma_first_free(taken: Set<int>, next: int, last: int)
    ensures
        match first_free(taken, next, last) {
            Some(i) => next <= i <= last && !taken.contains(i) && forall|j: int|
                next <= j < i ==> taken.contains(j),
            None => forall|j: int| next <= j <= last ==> taken.contains(j),
        },
    decreases last - next + 1,
{
    if next <= last && taken.contains(next) {
        lemma_first_free(taken, next + 1, last);
    }
}

/// `free_top` finds a free upper end that is `top` plus a multiple of 32,
/// passes over taken upper ends only, and finds one wherever such an upper
/// end is free.
pub proof fn lemma_free_top(taken: Set<int>, top: int)
    ensures
        match free_top(taken, top) {
            Some(free) => top <= free <= u64::MAX && (free - top) % 32 == 0 && !taken.contains(
                free,
            ) && forall|j: int|
                top <= j < free && (j - top) % 32 == 0 ==> taken.contains(j),
            None => forall|j: int|
                top <= j <= u64::MAX && (j - top) % 32 == 0 ==> taken.contains(j),
        },
    decreases u64::MAX - top + 32,
{
    if top <= u64::MAX && taken.contains(top) {
        lemma_free_top(taken, top + 32);
    }
}

/// The index that a search settles on is free, and at least 1.
pub proof fn lemma_resolved_is_free(taken: Set<int>)
    ensures
        resolved(taken) matches Some(i) ==> 1 <= i <= u64::MAX && !taken.contains(i),
{
    lemma_free_top(taken, 16);
    if let Some(top) = free_top(taken, 16) {
        lemma_first_free(taken, scan_base(taken, top) + 1, scan_base(taken, top) + 16);
    }
}

/// A search settles on an index wherever one of the upper ends 16, 48, 80,
/// ... is free: it gives up only in a directory that holds all of them.
pub proof fn lemma_resolved_exists(taken: Set<int>, top: int)
    requires
        16 <= top <= u64::MAX,
        top % 32 == 16,
        !taken.contains(top),
    ensures
        resolved(taken) is Some,
{
    lemma_free_top(taken, 16);
    let free = free_top(taken, 16)->0;
    let base = scan_base(taken, free);
    lemma_first_free(taken, base + 1, base + 16);
}

/// In a directory that holds exactly the indices 1 to `count`, the search
/// settles on `count + 1`.
pub proof fn lemma_resolved_after_run(taken: Set<int>, count: int)
    requires
        0 <= count < u64::MAX - 64,
        forall|i: int| taken.contains(i) <==> 1 <= i <= count,
    ensures
        resolved(taken) == Some(count + 1),
{
    lemma_free_top(taken, 16);
    let above = count + 32 - (count + 16) % 32;
    assert(above % 32 == 16 && count < above <= count + 32);
    assert(!taken.contains(above));
    let free = free_top(taken, 16)->0;
    assert(free > count);
    let base = scan_base(taken, free);
    lemma_first_free(taken, base + 1, base + 16);
    assert(!taken.contains(count + 1));
    assert(first_free(taken, base + 1, base + 16) == Some(count + 1));
}

/// The number of questions that a search in state `s` asks, this one
/// included, where `taken` holds the indices that are taken.
pub open spec fn questions(s: Search, taken: Set<int>) -> nat
    decreases s.questions_left(),
{
    if !s.wf() {
        0
    } else {
        match s.next(taken.contains(s.index())) {
            Step::Ask(after) => 1 + questions(after, taken),
            _ => 1,
        }
    }
}

/// A scan asks for each of its indices once at most.
proof fn lemma_scan_questions(next: u64, last: u64, taken: Set<int>)
    requires
        (Search::Scan { next, last }).wf(),
    ensures
        questions(Search::Scan { next, last }, taken) <= last - next + 1,
    decreases last - next,
{
    if taken.contains(next as int) && next < last {
        lemma_scan_questions((next + 1) as u64, last, taken);
    }
}

/// While the upper end `top` moves up through the indices up to `bound`, above
/// which all are free, it asks once for every 32 indices, and at most 18
/// times after that.
proof fn lemma_widen_questions(top: u64, taken: Set<int>, bound: int)
    requires
        (Search::Widen { top }).wf(),
        0 <= bound <= u64::MAX - 32,
        forall|i: int| i > bound ==> !taken.contains(i),
    ensures
        questions(Search::Widen { top }, taken) <= (if top > bound {
            0
        } else {
            (bound - top) / 32 + 1
        }) + 18,
    decreases u64::MAX - top,
{
    if taken.contains(top as int) {
        lemma_widen_questions((top + 32) as u64, taken, bound);
    } else if top > 16 {
        let half = Search::Halve { top };
        match half.next(taken.contains(half.index())) {
            Step::Ask(Search::Scan { next, last }) => {
                lemma_scan_questions(next, last, taken);
                assert(questions(half, taken) == 1 + questions(
                    Search::Scan { next, last },
                    taken,
                ));
            },
            _ => {},
        }
    } else {
        lemma_scan_questions(1, 16, taken);
    }
}

/// A search asks few questions: in a directory whose taken indices are all
/// at or below `bound`, one for every 32 indices up to `bound`, and at most
/// 19 more.
pub proof fn lemma_questions_bounded(taken: Set<int>, bound: int)
    requires
        0 <= bound <= u64::MAX - 32,
        forall|i: int| i > bound ==> !taken.contains(i),
    ensures
        questions(Search::Widen { top: FIRST_TOP }, taken) <= bound / 32 + 19,
{
    lemma_widen_questions(FIRST_TOP, taken, bound);
}

} // verus!
