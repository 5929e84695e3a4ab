//! The run's state machine: planning, an optional overwrite confirmation
//! gate, transferring plan items strictly in order, and a terminal state
//! with the run's outcome.

use vstd::prelude::*;
use crate::plan::{CopyError, CopyPlanItem};

verus! {

/// The whitespace the confirmation prompt ignores around its answer.
pub open spec fn is_space(c: char) -> bool {
    c == ' ' || c == '\t' || c == '\n' || c == '\r'
}

/// `s` without leading whitespace.
pub open spec fn trim_leading(s: Seq<char>) -> Seq<char>
    decreases s.len(),
{
    if s.len() > 0 && is_space(s[0]) {
        trim_leading(s.subrange(1, s.len() as int))
    } else {
        s
    }
}

/// `s` without trailing whitespace.
pub open spec fn trim_trailing(s: Seq<char>) -> Seq<char>
    decreases s.len(),
{
    if s.len() > 0 && is_space(s.last()) {
        trim_trailing(s.drop_last())
    } else {
        s
    }
}

/// An affirmative confirmation: the input is exactly `y`, case
/// insensitively, once surrounding whitespace is ignored. Anything else
/// (an empty line included) declines.
pub open spec fn spec_confirm(s: Seq<char>) -> bool {
    trim_trailing(trim_leading(s)) == seq!['y'] || trim_trailing(trim_leading(s)) == seq!['Y']
}

proof fn lemma_trim_leading_subrange(s: Seq<char>, b: int)
    requires
        0 <= b <= s.len(),
        forall|j: int| 0 <= j < b ==> is_space(s[j]),
        b == s.len() || !is_space(s[b]),
    ensures
        trim_leading(s) == s.subrange(b, s.len() as int),
    decreases s.len(),
{
    if s.len() == 0 {
        assert(s.subrange(0, 0) =~= s);
    } else if b == 0 {
        assert(s.subrange(0, s.len() as int) =~= s);
    } else {
        let s1 = s.subrange(1, s.len() as int);
        lemma_trim_leading_subrange(s1, b - 1);
        assert(s1.subrange(b - 1, s1.len() as int) =~= s.subrange(b, s.len() as int));
    }
}

proof fn lemma_trim_trailing_subrange(s: Seq<char>, e: int)
    requires
        0 <= e <= s.len(),
        forall|j: int| e <= j < s.len() ==> is_space(s[j]),
        e == 0 || !is_space(s[e - 1]),
    ensures
        trim_trailing(s) == s.subrange(0, e),
    decreases s.len(),
{
    if s.len() == 0 {
        assert(s.subrange(0, 0) =~= s);
    } else if e == s.len() {
        assert(s.subrange(0, s.len() as int) =~= s);
    } else {
        lemma_trim_trailing_subrange(s.drop_last(), e);
        assert(s.drop_last().subrange(0, e) =~= s.subrange(0, e));
    }
}

/// Decides an overwrite confirmation as the prompt does: only a trimmed,
/// case-insensitive `y` proceeds.
pub fn confirmation_accepts(input: &str) -> (r: bool)
    ensures
        r == spec_confirm(input@),
{
    let n = input.unicode_len();
    let mut b: usize = 0;
    loop
        invariant
            b <= n,
            n == input@.len(),
            forall|j: int| 0 <= j < b ==> is_space(input@[j]),
        ensures
            b <= n,
            forall|j: int| 0 <= j < b ==> is_space(input@[j]),
            b == n || !is_space(input@[b as int]),
        decreases n - b,
    {
        if b >= n {
            break;
        }
        let c = input.get_char(b);
        if !(c == ' ' || c == '\t' || c == '\n' || c == '\r') {
            break;
        }
        b += 1;
    }
    proof {
        lemma_trim_leading_subrange(input@, b as int);
    }
    let ghost t1 = input@.subrange(b as int, n as int);
    let mut e: usize = n;
    loop
        invariant
            b <= e <= n,
            n == input@.len(),
            forall|j: int| e <= j < n ==> is_space(input@[j]),
        ensures
            b <= e <= n,
            forall|j: int| e <= j < n ==> is_space(input@[j]),
            e == b || !is_space(input@[e - 1]),
        decreases e,
    {
        if e <= b {
            break;
        }
        let c = input.get_char(e - 1);
        if !(c == ' ' || c == '\t' || c == '\n' || c == '\r') {
            break;
        }
        e -= 1;
    }
    proof {
        assert(forall|j: int| e - b <= j < t1.len() ==> is_space(t1[j]));
        lemma_trim_trailing_subrange(t1, e - b);
        assert(t1.subrange(0, e - b) =~= input@.subrange(b as int, e as int));
    }
    if e - b != 1 {
        return false;
    }
    let c = input.get_char(b);
    proof {
        assert(input@.subrange(b as int, e as int) =~= seq![input@[b as int]]);
        let t = trim_trailing(trim_leading(input@));
        assert(t == seq![input@[b as int]]);
        if input@[b as int] == 'y' {
            assert(t =~= seq!['y']);
        }
        if input@[b as int] == 'Y' {
            assert(t =~= seq!['Y']);
        }
        if t == seq!['y'] {
            assert(input@[b as int] == t[0] && t[0] == 'y');
        }
        if t == seq!['Y'] {
            assert(input@[b as int] == t[0] && t[0] == 'Y');
        }
    }
    c == 'y' || c == 'Y'
}

/// Where a run stands.
#[derive(Clone, Copy, Debug, PartialEq, Eq, Structural)]
pub enum Phase {
    /// The plan is being built.
    Planning,
    /// Overwrites were detected; the run waits for the user's answer.
    AwaitingConfirmation,
    /// Plan items are processed strictly in plan order.
    Transferring,
    /// The run is over; the outcome says how it ended.
    Finished,
}

/// How a finished run ended. A declined confirmation is a cancellation,
/// not a failure.
#[derive(Clone, Copy, Debug, PartialEq, Eq, Structural)]
pub enum Outcome {
    Completed,
    Cancelled,
    Failed(CopyError),
}

/// The copy orchestrator: the plan, the index of the next item to hand
/// out, and the phase of the run.
pub struct Orchestrator {
    pub plan: Vec<CopyPlanItem>,
    pub next_item: usize,
    pub phase: Phase,
    pub outcome: Option<Outcome>,
}

/// The orchestrator's invariant: the cursor stays within the plan, no
/// item is handed out while confirmation is still pending, and exactly a
/// finished run has an outcome.
pub open spec fn orch_wf(o: &Orchestrator) -> bool {
    &&& o.next_item <= o.plan@.len()
    &&& (o.phase == Phase::AwaitingConfirmation ==> o.next_item == 0)
    &&& (o.outcome is Some <==> o.phase == Phase::Finished)
}

impl Orchestrator {
    /// Starts a run over a built plan. Confirmation is awaited only when
    /// overwrite detection was requested and found something; otherwise
    /// transfers may begin at once.
    pub fn new(plan: Vec<CopyPlanItem>, force: bool, overwrites_found: usize) -> (r: Orchestrator)
        ensures
            orch_wf(&r),
            r.plan@ == plan@,
            r.next_item == 0,
            r.phase == (if force && overwrites_found > 0 {
                Phase::AwaitingConfirmation
            } else {
                Phase::Transferring
            }),
            r.outcome is None,
    {
        let phase = if force && overwrites_found > 0 {
            Phase::AwaitingConfirmation
        } else {
            Phase::Transferring
        };
        Orchestrator { plan, next_item: 0, phase, outcome: None }
    }

    /// Answers the confirmation prompt. A declined confirmation finishes
    /// the run as a cancellation with not one item handed out; an
    /// accepted one lets the transfers begin.
    pub fn confirm(&mut self, input: &str)
        requires
            orch_wf(&*old(self)),
            old(self).phase == Phase::AwaitingConfirmation,
        ensures
            orch_wf(&*final(self)),
            final(self).plan@ == old(self).plan@,
            final(self).next_item == 0,
            spec_confirm(input@) ==> final(self).phase == Phase::Transferring
                && (final(self).outcome is None),
            !spec_confirm(input@) ==> final(self).phase == Phase::Finished && final(self).outcome
                == Some(Outcome::Cancelled),
    {
        if confirmation_accepts(input) {
            self.phase = Phase::Transferring;
        } else {
            self.phase = Phase::Finished;
            self.outcome = Some(Outcome::Cancelled);
        }
    }

    /// Hands out the index of the next plan item, strictly in plan
    /// order, or reports that the plan is exhausted.
    pub fn take_next(&mut self) -> (r: Option<usize>)
        requires
            orch_wf(&*old(self)),
            old(self).phase == Phase::Transferring,
        ensures
            orch_wf(&*final(self)),
            final(self).plan@ == old(self).plan@,
            final(self).phase == Phase::Transferring,
            final(self).outcome is None,
            old(self).next_item < old(self).plan@.len() ==> r == Some(old(self).next_item)
                && final(self).next_item == old(self).next_item + 1,
            old(self).next_item >= old(self).plan@.len() ==> r is None && final(self).next_item
                == old(self).next_item,
    {
        if self.next_item < self.plan.len() {
            let i = self.next_item;
            self.next_item = i + 1;
            Some(i)
        } else {
            None
        }
    }

    /// Finishes a run whose plan was processed to the end.
    pub fn complete(&mut self)
        requires
            orch_wf(&*old(self)),
            old(self).phase == Phase::Transferring,
            old(self).next_item == old(self).plan@.len(),
        ensures
            orch_wf(&*final(self)),
            final(self).plan@ == old(self).plan@,
            final(self).next_item == old(self).next_item,
            final(self).phase == Phase::Finished,
            final(self).outcome == Some(Outcome::Completed),
    {
        self.phase = Phase::Finished;
        self.outcome = Some(Outcome::Completed);
    }

    /// Stops the run at the first fatal error: no further item is
    /// processed and the error becomes the run's outcome.
    pub fn fail(&mut self, err: CopyError)
        requires
            orch_wf(&*old(self)),
            old(self).phase == Phase::Transferring,
        ensures
            orch_wf(&*final(self)),
            final(self).plan@ == old(self).plan@,
            final(self).next_item == old(self).next_item,
            final(self).phase == Phase::Finished,
            final(self).outcome == Some(Outcome::Failed(err)),
    {
        self.phase = Phase::Finished;
        self.outcome = Some(Outcome::Failed(err));
    }
}

} // verus!
