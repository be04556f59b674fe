//! The whole procedure: an optional validator, then up to `rounds` runs,
//! stopping at the first run that fails.
use vstd::prelude::*;

verus! {

/// Exit code of a procedure whose behaviour was not reproduced.
pub const FAILURE_EXIT: i32 = 1;

/// Exit code of a procedure whose every round passed.
pub const SUCCESS_EXIT: i32 = 0;

/// What the caller does next.
#[derive(Clone, Copy, Debug, PartialEq, Eq, Structural)]
pub enum Step {
    /// Run the validator once and report its exit code.
    RunValidator,
    /// Run round `k` (counting from one) and report whether it passed.
    RunRound(usize),
    /// Stop, with this exit code.
    Exit(i32),
}

/// The step that follows from what has been reported so far.
pub open spec fn step_after(
    rounds: nat,
    has_validator: bool,
    validator_exit: Option<i32>,
    results: Seq<bool>,
) -> Step {
    if has_validator && validator_exit is None {
        Step::RunValidator
    } else if validator_exit is Some && validator_exit->0 != 0 {
        Step::Exit(validator_exit->0)
    } else if results.len() > 0 && !results.last() {
        Step::Exit(FAILURE_EXIT)
    } else if results.len() >= rounds {
        Step::Exit(SUCCESS_EXIT)
    } else {
        Step::RunRound((results.len() + 1) as usize)
    }
}

/// Index of the first `false` in `s`, or `s.len()` if there is none.
pub open spec fn first_failure(s: Seq<bool>) -> nat
    decreases s.len(),
{
    if s.len() == 0 {
        0
    } else if !s[0] {
        0
    } else {
        1 + first_failure(s.skip(1))
    }
}

/// What has been reported of one procedure.
pub struct Session {
    rounds: usize,
    has_validator: bool,
    validator_exit: Option<i32>,
    results: Vec<bool>,
}

impl Session {
    /// How many rounds a full success takes.
    pub closed spec fn rounds(&self) -> nat {
        self.rounds as nat
    }

    /// Whether a validator runs first.
    pub closed spec fn has_validator(&self) -> bool {
        self.has_validator
    }

    /// The validator's exit code, once reported.
    pub closed spec fn validator_exit(&self) -> Option<i32> {
        self.validator_exit
    }

    /// Whether each round run so far passed, in order.
    pub closed spec fn results(&self) -> Seq<bool> {
        self.results@
    }

    pub closed spec fn wf(&self) -> bool {
        &&& 1 <= self.rounds
        &&& self.results@.len() <= self.rounds
        &&& forall|i: int| 0 <= i < self.results@.len() - 1 ==> #[trigger] self.results@[i]
        &&& self.validator_exit is Some ==> self.has_validator
        &&& self.results@.len() > 0 ==> (!self.has_validator || self.validator_exit == Some(0i32))
    }

    /// The step that comes next.
    pub open spec fn step(&self) -> Step {
        step_after(self.rounds(), self.has_validator(), self.validator_exit(), self.results())
    }

    /// A procedure of `rounds` rounds, with a validator first iff
    /// `has_validator`.
    pub fn new(rounds: usize, has_validator: bool) -> (r: Session)
        requires
            rounds >= 1,
        ensures
            r.wf(),
            r.rounds() == rounds,
            r.has_validator() == has_validator,
            r.validator_exit() is None,
            r.results() == Seq::<bool>::empty(),
    {
        Session { rounds, has_validator, validator_exit: None, results: Vec::new() }
    }

    /// Decides the next step from what has been reported.
    pub fn next_step(&self) -> (r: Step)
        requires
            self.wf(),
        ensures
            r == self.step(),
    {
        if self.has_validator && self.validator_exit.is_none() {
            Step::RunValidator
        } else if self.validator_exit.is_some() && self.validator_exit.unwrap() != 0 {
            Step::Exit(self.validator_exit.unwrap())
        } else if self.results.len() > 0 && !self.results[self.results.len() - 1] {
            Step::Exit(FAILURE_EXIT)
        } else if self.results.len() >= self.rounds {
            Step::Exit(SUCCESS_EXIT)
        } else {
            Step::RunRound(self.results.len() + 1)
        }
    }

    /// Reports the validator's exit code.
    pub fn record_validator(&mut self, code: i32)
        requires
            old(self).wf(),
            old(self).step() == Step::RunValidator,
        ensures
            final(self).wf(),
            final(self).validator_exit() == Some(code),
            final(self).rounds() == old(self).rounds(),
            final(self).has_validator() == old(self).has_validator(),
            final(self).results() == old(self).results(),
    {
        self.validator_exit = Some(code);
    }

    /// Reports whether the round just run passed.
    pub fn record_round(&mut self, passed: bool)
        requires
            old(self).wf(),
            old(self).step() is RunRound,
        ensures
            final(self).wf(),
            final(self).results() == old(self).results().push(passed),
            final(self).rounds() == old(self).rounds(),
            final(self).has_validator() == old(self).has_validator(),
            final(self).validator_exit() == old(self).validator_exit(),
    {
        self.results.push(passed);
    }
}

proof fn lemma_first_failure(s: Seq<bool>)
    ensures
        first_failure(s) <= s.len(),
        forall|i: int| 0 <= i < first_failure(s) ==> #[trigger] s[i],
        first_failure(s) < s.len() ==> !s[first_failure(s) as int],
    decreases s.len(),
{
    if s.len() > 0 && s[0] {
        lemma_first_failure(s.skip(1));
        assert forall|i: int| 0 <= i < first_failure(s) implies #[trigger] s[i] by {
            if i > 0 {
                assert(s[i] == s.skip(1)[i - 1]);
            }
        }
    }
}

/// Rounds fail fast. Let `outcomes` hold what each of the `rounds` rounds
/// would report, and let the session have been told the first of them in
/// order. Once it stops, it has run exactly up to and including the first
/// failing round, with exit code `FAILURE_EXIT`; where no round fails, it
/// has run all of them, with exit code `SUCCESS_EXIT`.
pub proof fn lemma_rounds_fail_fast(s: Session, outcomes: Seq<bool>)
    requires
        s.wf(),
        outcomes.len() == s.rounds(),
        s.results() == outcomes.take(s.results().len() as int),
        s.step() is Exit,
        s.validator_exit() is Some ==> s.validator_exit() == Some(0i32),
    ensures
        first_failure(outcomes) < s.rounds() ==> {
            &&& s.results().len() == first_failure(outcomes) + 1
            &&& s.step() == Step::Exit(FAILURE_EXIT)
        },
        first_failure(outcomes) == s.rounds() ==> {
            &&& s.results().len() == s.rounds()
            &&& s.step() == Step::Exit(SUCCESS_EXIT)
        },
{
    lemma_first_failure(outcomes);
    let r = s.results();
    let n = r.len();
    let f = first_failure(outcomes);
    assert forall|i: int| 0 <= i < n implies r[i] == outcomes[i] by {}
    if n > 0 && !r[n - 1] {
        assert forall|i: int| 0 <= i < n - 1 implies #[trigger] outcomes[i] by {
            assert(r[i]);
        }
        if f < n - 1 {
            assert(outcomes[f as int]);
        }
        assert(f == n - 1);
    } else {
        assert(n == s.rounds());
        assert forall|i: int| 0 <= i < n implies #[trigger] outcomes[i] by {
            if i < n - 1 {
                assert(r[i]);
            }
        }
        if f < n {
            assert(outcomes[f as int]);
        }
    }
}

/// A validator that exits with a code `c` other than zero ends the
/// procedure with exit code `c` before any round has run; since a round can
/// be reported only at a `RunRound` step, none ever will.
pub proof fn lemma_validator_gate(s: Session, c: i32)
    requires
        s.wf(),
        s.validator_exit() == Some(c),
        c != 0,
    ensures
        s.results().len() == 0,
        s.step() == Step::Exit(c),
{
}

} // verus!
