//! The two ways of checking a circuit: the in-process mock check and the
//! generation of a proof.
//!
//! The proving system does both. This module holds the decisions around it:
//! what a result of the proving system means for a circuit, and which error
//! the caller sees. A failure of the proving system is handed on with its
//! context, with one exception: for the empty string, and for a string one
//! character off the accepted address, that has no encoding, the mock check
//! answers `false`. A string without an encoding is never answered with
//! `true` and never gets a proof.
use crate::circuit::IPCheckCircuit;
use crate::encode::{collect_chars, encode, target_chars, target_text};
use vstd::prelude::*;
use vstd::string::StringExecFns;

verus! {

/// What the mock evaluation of a circuit came to.
#[derive(Clone, Debug, PartialEq, Eq)]
pub enum MockReport {
    /// The evaluation could not be run; the text says why.
    RunFailed(String),
    /// Every constraint was evaluated; the flag says whether all of them hold.
    Evaluated(bool),
}

/// Why a mock check gave no answer.
#[derive(Clone, Debug, PartialEq, Eq)]
pub enum VerificationError {
    /// The proving system could not run the evaluation; the text is its own.
    Prover(String),
}

/// The steps of proof generation that can fail.
#[derive(Clone, Copy, Debug, PartialEq, Eq, Structural)]
pub enum ProofStage {
    /// Deriving the verifying key from the layout.
    VerifyingKey,
    /// Deriving the proving key from the verifying key.
    ProvingKey,
    /// Constructing the proof.
    Proof,
}

/// What proof generation came to.
#[derive(Clone, Debug, PartialEq, Eq)]
pub enum ProverOutcome {
    /// The step `0` failed; the text says why.
    Failed(ProofStage, String),
    /// The finished transcript.
    Proved(Vec<u8>),
}

/// Why no proof was generated.
#[derive(Clone, Debug, PartialEq, Eq)]
pub enum ProofError {
    /// The candidate string has no encoding.
    InvalidInput,
    /// A step of the proving system failed; the text is its own.
    Prover(ProofStage, String),
}

/// The words that introduce a failure of `stage`.
pub open spec fn stage_context(stage: ProofStage) -> Seq<char> {
    match stage {
        ProofStage::VerifyingKey => "Error generating verifying key: "@,
        ProofStage::ProvingKey => "Error generating proving key: "@,
        ProofStage::Proof => "Error creating proof: "@,
    }
}

impl VerificationError {
    /// The text of this error: what failed, then the proving system's words.
    pub open spec fn message_spec(&self) -> Seq<char> {
        match self {
            VerificationError::Prover(detail) => "Error running prover: "@ + detail@,
        }
    }

    /// The text of this error.
    pub fn message(&self) -> (text: String)
        ensures
            text@ == self.message_spec(),
    {
        match self {
            VerificationError::Prover(detail) => String::from_str("Error running prover: ").concat(
                detail.as_str(),
            ),
        }
    }
}

impl ProofError {
    /// The text of this error: what failed, then the proving system's words.
    pub open spec fn message_spec(&self) -> Seq<char> {
        match self {
            ProofError::InvalidInput => "Invalid IP format"@,
            ProofError::Prover(stage, detail) => stage_context(*stage) + detail@,
        }
    }

    /// The text of this error.
    pub fn message(&self) -> (text: String)
        ensures
            text@ == self.message_spec(),
    {
        match self {
            ProofError::InvalidInput => String::from_str("Invalid IP format"),
            ProofError::Prover(stage, detail) => {
                let context = match stage {
                    ProofStage::VerifyingKey => "Error generating verifying key: ",
                    ProofStage::ProvingKey => "Error generating proving key: ",
                    ProofStage::Proof => "Error creating proof: ",
                };
                String::from_str(context).concat(detail.as_str())
            },
        }
    }
}

/// `input` is as long as the accepted address and differs from it at
/// position `p` and nowhere else.
pub open spec fn differs_only_at(input: Seq<char>, p: int) -> bool {
    &&& input.len() == target_text().len()
    &&& 0 <= p < input.len()
    &&& input[p] != target_text()[p]
    &&& forall|q: int| 0 <= q < input.len() && q != p ==> input[q] == #[trigger] target_text()[q]
}

/// `input` differs from the accepted address in exactly one character.
pub open spec fn one_character_off(input: Seq<char>) -> bool {
    exists|p: int| differs_only_at(input, p)
}

/// The strings that the mock check answers with `false` rather than with
/// the proving system's failure when they have no encoding: the empty
/// string, and a string one character off the accepted address.
pub open spec fn plainly_rejected(input: Seq<char>) -> bool {
    input.len() == 0 || one_character_off(input)
}

/// Whether `input` differs from the accepted address in exactly one
/// character.
pub fn is_one_character_off(input: &str) -> (off: bool)
    ensures
        off == one_character_off(input@),
{
    let chars = collect_chars(input);
    let target = target_chars();
    if chars.len() != target.len() {
        return false;
    }
    let n = chars.len();
    let mut found: Option<usize> = None;
    let mut i: usize = 0;
    while i < n
        invariant
            i <= n,
            n == chars@.len(),
            chars@ == input@,
            target@ == target_text(),
            n == target@.len(),
            match found {
                None => forall|q: int| 0 <= q < i ==> chars@[q] == target@[q],
                Some(p) => {
                    &&& p < i
                    &&& chars@[p as int] != target@[p as int]
                    &&& forall|q: int| 0 <= q < i && q != p ==> chars@[q] == target@[q]
                },
            },
        decreases n - i,
    {
        if chars[i] != target[i] {
            match found {
                None => {
                    found = Some(i);
                },
                Some(p) => {
                    assert forall|at: int| !differs_only_at(input@, at) by {
                        if at == p {
                            assert(input@[i as int] != target_text()[i as int]);
                        } else {
                            assert(input@[p as int] != target_text()[p as int]);
                        }
                    }
                    return false;
                },
            }
        }
        i = i + 1;
    }
    match found {
        None => {
            assert forall|at: int| !differs_only_at(input@, at) by {
                if 0 <= at < n {
                    assert(input@[at] == target_text()[at]);
                }
            }
            false
        },
        Some(p) => {
            assert(differs_only_at(input@, p as int));
            true
        },
    }
}

impl IPCheckCircuit {
    /// The answer of the mock check for this circuit, given what the mock
    /// evaluation came to. An evaluation answers for itself, except that a
    /// string without an encoding is never answered with `true`. An
    /// evaluation that could not be run is an error that carries the proving
    /// system's words, except for a plainly rejected string without an
    /// encoding, which is answered with `false`.
    pub open spec fn verdict(&self, report: MockReport) -> Result<bool, VerificationError> {
        match report {
            MockReport::Evaluated(satisfied) => Ok(satisfied && self.symbols() is Some),
            MockReport::RunFailed(detail) => if self.symbols() is None && plainly_rejected(
                self.input(),
            ) {
                Ok(false)
            } else {
                Err(VerificationError::Prover(detail))
            },
        }
    }

    /// The result of proof generation for this circuit, given what the
    /// proving system came to. A failed step is an error that names the step
    /// and carries the proving system's words. A finished transcript is the
    /// proof, unless the candidate string has no encoding.
    pub open spec fn proof_result(&self, outcome: ProverOutcome) -> Result<Vec<u8>, ProofError> {
        match outcome {
            ProverOutcome::Failed(stage, detail) => Err(ProofError::Prover(stage, detail)),
            ProverOutcome::Proved(transcript) => if self.symbols() is None {
                Err(ProofError::InvalidInput)
            } else {
                Ok(transcript)
            },
        }
    }

    /// The mock check. `report` is what the mock evaluation of this circuit
    /// came to.
    ///
    /// The answer of an evaluation is handed on; `true` is handed on only for
    /// a candidate string that has an encoding. An evaluation that could not
    /// be run is an error with the proving system's words. The empty string
    /// and a string one character off the accepted address are answered with
    /// `false` where they have no encoding, also when the evaluation could
    /// not be run.
    pub fn verify(&self, report: MockReport) -> (answer: Result<bool, VerificationError>)
        ensures
            answer == self.verdict(report),
    {
        match report {
            MockReport::Evaluated(satisfied) => {
                if satisfied {
                    Ok(encode(self.encoding(), self.ip_string()).is_ok())
                } else {
                    Ok(false)
                }
            },
            MockReport::RunFailed(detail) => {
                if encode(self.encoding(), self.ip_string()).is_err() && (
                self.ip_string().is_empty() || is_one_character_off(self.ip_string())) {
                    Ok(false)
                } else {
                    Err(VerificationError::Prover(detail))
                }
            },
        }
    }

    /// Proof generation. `outcome` is what the proving system came to for
    /// this circuit.
    ///
    /// A failed step is reported with its stage and the proving system's
    /// words, for every candidate string. A finished transcript is the
    /// proof; for a candidate string without an encoding it is withheld and
    /// `InvalidInput` is returned.
    pub fn get_proof(&self, outcome: ProverOutcome) -> (proof_bytes: Result<Vec<u8>, ProofError>)
        ensures
            proof_bytes == self.proof_result(outcome),
    {
        match outcome {
            ProverOutcome::Failed(stage, detail) => Err(ProofError::Prover(stage, detail)),
            ProverOutcome::Proved(transcript) => {
                if encode(self.encoding(), self.ip_string()).is_err() {
                    Err(ProofError::InvalidInput)
                } else {
                    Ok(transcript)
                }
            },
        }
    }
}

} // verus!
