//! One run: `parallel` instances of a command, polled until enough of them
//! pass or all of them have ended.
//!
//! The state machine holds what has been seen of each instance and decides
//! what comes next; the caller launches, sleeps, polls and kills.
use vstd::prelude::*;

use crate::backoff::{delay_at, Backoff};

verus! {

/// How an instance ended.
#[derive(Clone, Copy, Debug, PartialEq, Eq, Structural)]
pub enum ProcessOutcome {
    /// It exited with this code.
    Exited(i32),
    /// It ended without an exit code (a signal, say).
    Abnormal,
}

/// An instance passes when it exits with code zero.
pub open spec fn interesting(o: ProcessOutcome) -> bool {
    o == ProcessOutcome::Exited(0)
}

/// Classifies an ended instance as a pass or a failure.
pub fn is_interesting(o: ProcessOutcome) -> (r: bool)
    ensures
        r == interesting(o),
{
    match o {
        ProcessOutcome::Exited(code) => code == 0,
        ProcessOutcome::Abnormal => false,
    }
}

/// Whether an entry records a passing end.
pub open spec fn passed_entry(e: Option<ProcessOutcome>) -> bool {
    e matches Some(o) && interesting(o)
}

/// How many of the recorded ends are passes.
pub open spec fn count_passes(ends: Seq<Option<ProcessOutcome>>) -> nat
    decreases ends.len(),
{
    if ends.len() == 0 {
        0
    } else {
        count_passes(ends.drop_last()) + if passed_entry(ends.last()) {
            1nat
        } else {
            0nat
        }
    }
}

/// How many of the given outcomes are passes.
pub open spec fn count_interesting(outcomes: Seq<ProcessOutcome>) -> nat
    decreases outcomes.len(),
{
    if outcomes.len() == 0 {
        0
    } else {
        count_interesting(outcomes.drop_last()) + if interesting(outcomes.last()) {
            1nat
        } else {
            0nat
        }
    }
}

/// The instances not yet seen to end, in increasing order.
pub open spec fn pending_indices(ends: Seq<Option<ProcessOutcome>>) -> Seq<usize>
    decreases ends.len(),
{
    if ends.len() == 0 {
        seq![]
    } else {
        let rest = pending_indices(ends.drop_last());
        if ends.last() is None {
            rest.push((ends.len() - 1) as usize)
        } else {
            rest
        }
    }
}

/// Every instance has been seen to end.
pub open spec fn all_ended(ends: Seq<Option<ProcessOutcome>>) -> bool {
    forall|i: int| 0 <= i < ends.len() ==> #[trigger] ends[i] is Some
}

/// What was recorded agrees with what each instance ends with.
pub open spec fn agrees_with(ends: Seq<Option<ProcessOutcome>>, outcomes: Seq<ProcessOutcome>) -> bool {
    &&& ends.len() == outcomes.len()
    &&& forall|i: int| 0 <= i < ends.len() && #[trigger] ends[i] is Some ==> ends[i] == Some(outcomes[i])
}

/// The polling goes on while the threshold is unmet and some instance runs.
pub open spec fn keeps_polling(ends: Seq<Option<ProcessOutcome>>, required: nat) -> bool {
    count_passes(ends) < required && !all_ended(ends)
}

/// What the caller does next.
pub enum RunAction {
    /// Sleep `delay_ms` milliseconds, then poll each instance in `pending`.
    Poll { delay_ms: u64, pending: Vec<usize> },
    /// Kill each instance in `kill`; the run passed iff `passed`.
    Finish { kill: Vec<usize>, passed: bool },
}

/// What has been seen of the instances of one run.
pub struct RunState {
    required: usize,
    ends: Vec<Option<ProcessOutcome>>,
    passes: usize,
    backoff: Backoff,
}

impl RunState {
    /// The end recorded for each instance; `None` while it runs.
    pub closed spec fn ends(&self) -> Seq<Option<ProcessOutcome>> {
        self.ends@
    }

    /// How many passes the run needs.
    pub closed spec fn required(&self) -> nat {
        self.required as nat
    }

    /// How many polls have been ordered.
    pub closed spec fn polls(&self) -> nat {
        self.backoff.steps()
    }

    pub closed spec fn wf(&self) -> bool {
        &&& self.backoff.wf()
        &&& self.passes as nat == count_passes(self.ends@)
        &&& 1 <= self.required <= self.ends@.len() <= usize::MAX
    }

    /// The polling goes on.
    pub open spec fn continues(&self) -> bool {
        keeps_polling(self.ends(), self.required())
    }

    /// A run of `parallel` instances, all running, that needs `required`
    /// passes; its backoff schedule starts afresh.
    pub fn new(parallel: usize, required: usize) -> (r: RunState)
        requires
            1 <= required <= parallel,
        ensures
            r.wf(),
            r.ends() == Seq::new(parallel as nat, |i: int| None::<ProcessOutcome>),
            count_passes(r.ends()) == 0,
            r.continues(),
            r.required() == required,
            r.polls() == 0,
    {
        let mut ends: Vec<Option<ProcessOutcome>> = Vec::new();
        let mut n: usize = 0;
        while n < parallel
            invariant
                n <= parallel,
                ends@ == Seq::new(n as nat, |i: int| None::<ProcessOutcome>),
            decreases parallel - n,
        {
            ends.push(None);
            n = n + 1;
            assert(ends@ =~= Seq::new(n as nat, |i: int| None::<ProcessOutcome>));
        }
        proof {
            lemma_no_passes_yet(parallel as nat);
            assert(ends@[0] is None);
        }
        RunState { required, ends, passes: 0, backoff: Backoff::new() }
    }

    /// The instances not yet seen to end, in increasing order.
    pub fn pending(&self) -> (r: Vec<usize>)
        ensures
            r@ == pending_indices(self.ends()),
    {
        let mut r: Vec<usize> = Vec::new();
        let mut i: usize = 0;
        while i < self.ends.len()
            invariant
                i <= self.ends@.len(),
                r@ == pending_indices(self.ends@.take(i as int)),
            decreases self.ends@.len() - i,
        {
            let ghost front = self.ends@.take(i as int);
            assert(self.ends@.take(i + 1).drop_last() =~= front);
            if self.ends[i].is_none() {
                r.push(i);
            }
            i = i + 1;
        }
        assert(self.ends@.take(i as int) =~= self.ends@);
        r
    }

    /// Records that instance `i`, which was still running, ended with `o`.
    pub fn record(&mut self, i: usize, o: ProcessOutcome)
        requires
            old(self).wf(),
            i < old(self).ends().len(),
            old(self).ends()[i as int] is None,
        ensures
            final(self).wf(),
            final(self).ends() == old(self).ends().update(i as int, Some(o)),
            count_passes(final(self).ends()) == count_passes(old(self).ends()) + if interesting(o) {
                1nat
            } else {
                0nat
            },
            final(self).required() == old(self).required(),
            final(self).polls() == old(self).polls(),
    {
        proof {
            lemma_count_passes_update(self.ends@, i as int, o);
            lemma_count_passes_bound(self.ends@.update(i as int, Some(o)));
        }
        if is_interesting(o) {
            self.passes = self.passes + 1;
        }
        self.ends.set(i, Some(o));
    }

    /// Decides what comes next. While fewer than `required` instances have
    /// passed and some instance runs, it orders a pause from the backoff
    /// schedule, which no count of running instances changes, followed by a
    /// poll of the running instances. Otherwise the run is over: every
    /// instance still running is to be killed, and the run passed iff it
    /// reached its threshold.
    pub fn next_action(&mut self) -> (r: RunAction)
        requires
            old(self).wf(),
        ensures
            final(self).wf(),
            final(self).ends() == old(self).ends(),
            final(self).required() == old(self).required(),
            r is Poll <==> old(self).continues(),
            r matches RunAction::Poll { delay_ms, pending } ==> {
                &&& delay_ms as nat == delay_at(old(self).polls())
                &&& pending@ == pending_indices(old(self).ends())
                &&& final(self).polls() == old(self).polls() + 1
            },
            r matches RunAction::Finish { kill, passed } ==> {
                &&& kill@ == pending_indices(old(self).ends())
                &&& passed == (count_passes(old(self).ends()) >= old(self).required())
                &&& final(self).polls() == old(self).polls()
            },
    {
        let pending = self.pending();
        proof {
            lemma_pending_indices(self.ends@);
        }
        if self.passes < self.required && pending.len() > 0 {
            let delay_ms = self.backoff.next_delay();
            RunAction::Poll { delay_ms, pending }
        } else {
            RunAction::Finish { kill: pending, passed: self.passes >= self.required }
        }
    }
}

proof fn lemma_no_passes_yet(n: nat)
    ensures
        count_passes(Seq::new(n, |i: int| None::<ProcessOutcome>)) == 0,
    decreases n,
{
    if n > 0 {
        let s = Seq::new(n, |i: int| None::<ProcessOutcome>);
        assert(s.drop_last() =~= Seq::new((n - 1) as nat, |i: int| None::<ProcessOutcome>));
        lemma_no_passes_yet((n - 1) as nat);
    }
}

proof fn lemma_count_passes_bound(ends: Seq<Option<ProcessOutcome>>)
    ensures
        count_passes(ends) <= ends.len(),
    decreases ends.len(),
{
    if ends.len() > 0 {
        lemma_count_passes_bound(ends.drop_last());
    }
}

proof fn lemma_count_passes_update(ends: Seq<Option<ProcessOutcome>>, i: int, o: ProcessOutcome)
    requires
        0 <= i < ends.len(),
        ends[i] is None,
    ensures
        count_passes(ends.update(i, Some(o))) == count_passes(ends) + if interesting(o) {
            1nat
        } else {
            0nat
        },
    decreases ends.len(),
{
    let after = ends.update(i, Some(o));
    if i == ends.len() - 1 {
        assert(after.drop_last() =~= ends.drop_last());
    } else {
        assert(after.drop_last() =~= ends.drop_last().update(i, Some(o)));
        lemma_count_passes_update(ends.drop_last(), i, o);
    }
}

/// The pending list names exactly the instances not yet seen to end, each
/// once, in increasing order: none is left out of a kill list built from it.
pub proof fn lemma_pending_indices(ends: Seq<Option<ProcessOutcome>>)
    requires
        ends.len() <= usize::MAX,
    ensures
        forall|j: int|
            0 <= j < pending_indices(ends).len() ==> {
                &&& (#[trigger] pending_indices(ends)[j]) < ends.len()
                &&& ends[pending_indices(ends)[j] as int] is None
            },
        forall|j: int, k: int|
            0 <= j < k < pending_indices(ends).len() ==> #[trigger] pending_indices(ends)[j]
                < #[trigger] pending_indices(ends)[k],
        forall|i: int|
            0 <= i < ends.len() && #[trigger] ends[i] is None ==> pending_indices(ends).contains(
                i as usize,
            ),
        pending_indices(ends).len() == 0 <==> all_ended(ends),
    decreases ends.len(),
{
    if ends.len() > 0 {
        let front = ends.drop_last();
        lemma_pending_indices(front);
        let p = pending_indices(ends);
        let q = pending_indices(front);
        assert forall|j: int, k: int| 0 <= j < k < p.len() implies #[trigger] p[j] < #[trigger] p[k] by {
            if k == q.len() {
                assert(q[j] < front.len());
            } else {
                assert(q[j] < q[k]);
            }
        }
        assert forall|j: int| 0 <= j < p.len() implies (#[trigger] p[j]) < ends.len() && ends[p[j] as int] is None by {
            if j < q.len() {
                assert(q[j] < front.len());
                assert(front[q[j] as int] is None);
            }
        }
        assert forall|i: int| 0 <= i < ends.len() && #[trigger] ends[i] is None implies p.contains(
            i as usize,
        ) by {
            if i < ends.len() - 1 {
                assert(front[i] is None);
                let j = choose|j: int| 0 <= j < q.len() && q[j] == i as usize;
                assert(p[j] == i as usize);
            } else {
                assert(p[p.len() - 1] == i as usize);
            }
        }
        if p.len() == 0 {
            assert forall|i: int| 0 <= i < ends.len() implies #[trigger] ends[i] is Some by {
                if ends[i] is None {
                    assert(p.contains(i as usize));
                }
            }
        }
        if all_ended(ends) {
            assert(ends.last() is Some);
            assert forall|i: int| 0 <= i < front.len() implies #[trigger] front[i] is Some by {
                assert(ends[i] is Some);
            }
        }
    }
}

/// Recorded passes never outnumber the passes among the true outcomes, and
/// once every instance has ended the two counts are equal.
proof fn lemma_counts_agree(ends: Seq<Option<ProcessOutcome>>, outcomes: Seq<ProcessOutcome>)
    requires
        agrees_with(ends, outcomes),
    ensures
        count_passes(ends) <= count_interesting(outcomes),
        all_ended(ends) ==> count_passes(ends) == count_interesting(outcomes),
    decreases ends.len(),
{
    if ends.len() > 0 {
        let front = ends.drop_last();
        assert(agrees_with(front, outcomes.drop_last()));
        lemma_counts_agree(front, outcomes.drop_last());
        if all_ended(ends) {
            assert(ends.last() is Some);
            assert(all_ended(front)) by {
                assert forall|i: int| 0 <= i < front.len() implies #[trigger] front[i] is Some by {
                    assert(ends[i] is Some);
                }
            }
        }
        if ends.last() is Some {
            assert(ends[ends.len() - 1] == Some(outcomes[outcomes.len() - 1]));
        }
    }
}

/// Where the polling has stopped, the run passes exactly when at least
/// `required` instances exit with code zero, whatever the order and the
/// moments at which they end: an instance killed early cannot turn the
/// decision.
pub proof fn lemma_outcome_follows_exits(
    ends: Seq<Option<ProcessOutcome>>,
    outcomes: Seq<ProcessOutcome>,
    required: nat,
)
    requires
        agrees_with(ends, outcomes),
        1 <= required <= ends.len(),
        !keeps_polling(ends, required),
    ensures
        (count_passes(ends) >= required) == (count_interesting(outcomes) >= required),
{
    lemma_counts_agree(ends, outcomes);
}

} // verus!
