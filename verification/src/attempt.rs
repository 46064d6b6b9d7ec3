//! The course of one verification attempt.
//!
//! An attempt starts without a layout, gets one, begins its synthesis and
//! ends satisfied, rejected or in error. A layout serves any number of
//! attempts, each of which starts over from `Configured`; an attempt that has
//! ended takes no further event.
use crate::circuit::IPCheckCircuit;
use crate::encode::encode;
use crate::orchestrate::{is_one_character_off, plainly_rejected, MockReport, VerificationError};
use vstd::prelude::*;

verus! {

/// Where an attempt stands.
#[derive(Clone, Copy, Debug, PartialEq, Eq, Structural)]
pub enum CheckState {
    /// No layout has been declared.
    Unconfigured,
    /// The layout is fixed; no synthesis has begun.
    Configured,
    /// Synthesis has begun and has not ended.
    Synthesizing,
    /// Every constraint holds.
    Satisfied,
    /// The candidate string has no encoding, or a constraint does not hold.
    Rejected,
    /// The proving system could not evaluate the circuit.
    Errored,
}

/// What moves an attempt on.
#[derive(Clone, Copy, Debug, PartialEq, Eq, Structural)]
pub enum CheckEvent {
    /// Configuration returned the layout.
    LayoutFixed,
    /// Synthesis begins.
    SynthesisStarted,
    /// The candidate string turned out to have no encoding.
    InputRefused,
    /// The evaluation found every constraint to hold.
    ConstraintsMet,
    /// The evaluation found a constraint that does not hold.
    ConstraintsViolated,
    /// The evaluation could not be run.
    EvaluationFailed,
}

/// An attempt in `state` has ended.
pub open spec fn is_final(state: CheckState) -> bool {
    state == CheckState::Satisfied || state == CheckState::Rejected || state
        == CheckState::Errored
}

/// The state that `event` leads to from `state`, if the event can occur there.
pub open spec fn next_state(state: CheckState, event: CheckEvent) -> Option<CheckState> {
    match (state, event) {
        (CheckState::Unconfigured, CheckEvent::LayoutFixed) => Some(CheckState::Configured),
        (CheckState::Configured, CheckEvent::SynthesisStarted) => Some(CheckState::Synthesizing),
        (CheckState::Synthesizing, CheckEvent::InputRefused) => Some(CheckState::Rejected),
        (CheckState::Synthesizing, CheckEvent::ConstraintsMet) => Some(CheckState::Satisfied),
        (CheckState::Synthesizing, CheckEvent::ConstraintsViolated) => Some(
            CheckState::Rejected,
        ),
        (CheckState::Synthesizing, CheckEvent::EvaluationFailed) => Some(CheckState::Errored),
        _ => None,
    }
}

/// Moves an attempt on by one event; `None` where the event cannot occur in
/// `state`.
pub fn step(state: CheckState, event: CheckEvent) -> (next: Option<CheckState>)
    ensures
        next == next_state(state, event),
{
    match state {
        CheckState::Unconfigured => match event {
            CheckEvent::LayoutFixed => Some(CheckState::Configured),
            _ => None,
        },
        CheckState::Configured => match event {
            CheckEvent::SynthesisStarted => Some(CheckState::Synthesizing),
            _ => None,
        },
        CheckState::Synthesizing => match event {
            CheckEvent::InputRefused => Some(CheckState::Rejected),
            CheckEvent::ConstraintsMet => Some(CheckState::Satisfied),
            CheckEvent::ConstraintsViolated => Some(CheckState::Rejected),
            CheckEvent::EvaluationFailed => Some(CheckState::Errored),
            _ => None,
        },
        _ => None,
    }
}

impl IPCheckCircuit {
    /// The event that ends the synthesis of this circuit, given what the mock
    /// evaluation came to.
    pub open spec fn closing_event(&self, report: MockReport) -> CheckEvent {
        match report {
            MockReport::RunFailed(_) => if self.symbols() is None && plainly_rejected(
                self.input(),
            ) {
                CheckEvent::InputRefused
            } else {
                CheckEvent::EvaluationFailed
            },
            MockReport::Evaluated(satisfied) => if self.symbols() is None {
                CheckEvent::InputRefused
            } else if satisfied {
                CheckEvent::ConstraintsMet
            } else {
                CheckEvent::ConstraintsViolated
            },
        }
    }

    /// The state in which an attempt on this circuit ends, given what the
    /// mock evaluation came to.
    pub open spec fn final_state(&self, report: MockReport) -> CheckState {
        next_state(CheckState::Synthesizing, self.closing_event(report)).unwrap()
    }

    /// Ends the synthesis of an attempt on this circuit, given what the mock
    /// evaluation came to, and returns the state that the attempt ends in.
    pub fn attempt(&self, report: &MockReport) -> (end: CheckState)
        ensures
            end == self.final_state(*report),
            is_final(end),
    {
        let encoded = encode(self.encoding(), self.ip_string()).is_ok();
        let closing = match report {
            MockReport::RunFailed(_) => {
                if !encoded && (self.ip_string().is_empty() || is_one_character_off(
                    self.ip_string(),
                )) {
                    CheckEvent::InputRefused
                } else {
                    CheckEvent::EvaluationFailed
                }
            },
            MockReport::Evaluated(satisfied) => {
                if !encoded {
                    CheckEvent::InputRefused
                } else if *satisfied {
                    CheckEvent::ConstraintsMet
                } else {
                    CheckEvent::ConstraintsViolated
                }
            },
        };
        match step(CheckState::Synthesizing, closing) {
            Some(end) => end,
            None => CheckState::Errored,
        }
    }
}

/// An attempt that has ended takes no further event, and an attempt ends
/// only from `Synthesizing`.
pub proof fn lemma_final_states_are_final(state: CheckState, event: CheckEvent)
    ensures
        is_final(state) ==> next_state(state, event) is None,
        next_state(state, event) is Some && is_final(next_state(state, event).unwrap()) ==> state
            == CheckState::Synthesizing,
{
}

/// The answer of the mock check is the end of the attempt: `true` where it
/// ends satisfied, `false` where it ends rejected, an error where it ends in
/// error.
pub proof fn lemma_verdict_is_final_state(circuit: IPCheckCircuit, report: MockReport)
    ensures
        is_final(circuit.final_state(report)),
        circuit.final_state(report) == CheckState::Satisfied <==> circuit.verdict(report) == Ok::<
            bool,
            VerificationError,
        >(true),
        circuit.final_state(report) == CheckState::Rejected <==> circuit.verdict(report) == Ok::<
            bool,
            VerificationError,
        >(false),
        circuit.final_state(report) == CheckState::Errored <==> circuit.verdict(report) is Err,
{
}

} // verus!
