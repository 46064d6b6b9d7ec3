use std::cell::RefCell;
use std::marker::PhantomData;

use halo2_proofs::circuit::{Layouter, SimpleFloorPlanner};
use halo2_proofs::dev::MockProver;
use halo2_proofs::pasta::{EpAffine, Fq};
use halo2_proofs::plonk::{
    create_proof, keygen_pk, keygen_vk, verify_proof, Circuit, ConstraintSystem, Error,
    SingleVerifier,
};
use halo2_proofs::poly::commitment::Params;
use halo2_proofs::transcript::{Blake2bRead, Blake2bWrite, Challenge255};
use ip_check::backend::{ConstraintSystemRef, RegionRef};
use ip_check::encode::Encoding;
use ip_check::layout::{BindingStrategy, ConstraintSystemHandle};
use ip_check::orchestrate::{
    MockReport, ProofError, ProofStage, ProverOutcome, VerificationError,
};
use ip_check::region::RegionHandle;
use ip_check::synth::SynthesisError;
use ip_check::{IPCheckCircuit, IPCheckConfig};
use rand::rngs::OsRng;

const K: u32 = 5;

/// The shape of a circuit: the policy its layout is declared for and the
/// strategy that binds its cells.
trait Shape {
    fn encoding() -> Encoding;
    fn strategy() -> BindingStrategy;
}

struct SegmentsFixed;

struct SegmentsSelector;

struct BytesFixed;

struct BytesSelector;

impl Shape for SegmentsFixed {
    fn encoding() -> Encoding {
        Encoding::Segments
    }

    fn strategy() -> BindingStrategy {
        BindingStrategy::FixedColumn
    }
}

impl Shape for SegmentsSelector {
    fn encoding() -> Encoding {
        Encoding::Segments
    }

    fn strategy() -> BindingStrategy {
        BindingStrategy::SelectorConstant
    }
}

impl Shape for BytesFixed {
    fn encoding() -> Encoding {
        Encoding::Bytes
    }

    fn strategy() -> BindingStrategy {
        BindingStrategy::FixedColumn
    }
}

impl Shape for BytesSelector {
    fn encoding() -> Encoding {
        Encoding::Bytes
    }

    fn strategy() -> BindingStrategy {
        BindingStrategy::SelectorConstant
    }
}

/// A library circuit wired to the proving system, with a note of how each
/// synthesis ended.
struct Wired<S> {
    circuit: IPCheckCircuit,
    ends: RefCell<Vec<String>>,
    shape: PhantomData<S>,
}

impl<S: Shape> Wired<S> {
    fn new(circuit: IPCheckCircuit) -> Self {
        Wired { circuit, ends: RefCell::new(Vec::new()), shape: PhantomData }
    }

    fn of(text: &str) -> Self {
        Wired::new(IPCheckCircuit::with_encoding(text.to_string(), S::encoding()).unwrap())
    }
}

impl<S: Shape> Circuit<Fq> for Wired<S> {
    type Config = IPCheckConfig;
    type FloorPlanner = SimpleFloorPlanner;

    fn without_witnesses(&self) -> Self {
        Wired::new(self.circuit.without_witnesses())
    }

    fn configure(meta: &mut ConstraintSystem<Fq>) -> IPCheckConfig {
        let mut handle = ConstraintSystemHandle::new(ConstraintSystemRef { meta });
        IPCheckCircuit::configure(&mut handle, S::encoding(), S::strategy())
    }

    fn synthesize(&self, config: IPCheckConfig, mut layouter: impl Layouter<Fq>) -> Result<(), Error> {
        layouter.assign_region(
            || "Check IP",
            |mut region| {
                let mut handle = RegionHandle::new(RegionRef { region: &mut region });
                match self.circuit.synthesize(&config, &mut handle) {
                    Ok(()) => {
                        self.ends.borrow_mut().push("done".to_string());
                        Ok(())
                    }
                    Err(SynthesisError::InvalidInput) => {
                        self.ends.borrow_mut().push("invalid input".to_string());
                        Err(Error::Synthesis)
                    }
                    Err(SynthesisError::LayoutMismatch) => {
                        self.ends.borrow_mut().push("layout mismatch".to_string());
                        Err(Error::Synthesis)
                    }
                    Err(SynthesisError::Backend(e)) => {
                        self.ends.borrow_mut().push("backend".to_string());
                        Err(e)
                    }
                }
            },
        )
    }
}

fn mock_report<S: Shape>(wired: &Wired<S>) -> MockReport {
    mock_report_at(K, wired)
}

fn mock_report_at<S: Shape>(k: u32, wired: &Wired<S>) -> MockReport {
    match MockProver::<Fq>::run(k, wired, vec![]) {
        Ok(prover) => MockReport::Evaluated(prover.verify().is_ok()),
        Err(e) => MockReport::RunFailed(format!("{}", e)),
    }
}

fn mock_verify<S: Shape>(text: &str) -> Result<bool, VerificationError> {
    let wired = Wired::<S>::of(text);
    let report = mock_report(&wired);
    wired.circuit.verify(report)
}

fn prove<S: Shape>(text: &str) -> (Params<EpAffine>, Option<Vec<u8>>, ProverOutcome) {
    let params: Params<EpAffine> = Params::new(K);
    let wired = Wired::<S>::of(text);
    let vk = match keygen_vk(&params, &wired) {
        Ok(vk) => vk,
        Err(e) => {
            return (params, None, ProverOutcome::Failed(ProofStage::VerifyingKey, format!("{:?}", e)))
        }
    };
    let pk = match keygen_pk(&params, vk, &wired) {
        Ok(pk) => pk,
        Err(e) => {
            return (params, None, ProverOutcome::Failed(ProofStage::ProvingKey, format!("{:?}", e)))
        }
    };
    let mut transcript = Blake2bWrite::<_, EpAffine, Challenge255<EpAffine>>::init(Vec::new());
    if let Err(e) = create_proof(&params, &pk, &[wired], &[&[]], OsRng, &mut transcript) {
        return (params, None, ProverOutcome::Failed(ProofStage::Proof, format!("{:?}", e)));
    }
    let bytes = transcript.finalize();
    (params, Some(bytes.clone()), ProverOutcome::Proved(bytes))
}

fn proof_is_accepted<S: Shape>(params: &Params<EpAffine>, proof: &[u8]) -> bool {
    let vk = keygen_vk(params, &Wired::<S>::of("127.0.0.1")).unwrap();
    let strategy = SingleVerifier::new(params);
    let mut transcript = Blake2bRead::<_, EpAffine, Challenge255<EpAffine>>::init(proof);
    verify_proof(params, &vk, strategy, &[&[]], &mut transcript).is_ok()
}

#[test]
fn loopback_verifies() {
    assert_eq!(mock_verify::<SegmentsFixed>("127.0.0.1"), Ok(true));
}

#[test]
fn other_address_does_not_verify() {
    assert_eq!(mock_verify::<SegmentsFixed>("127.0.0.2"), Ok(false));
}

#[test]
fn five_segments_do_not_verify() {
    let wired = Wired::<SegmentsFixed>::of("127.0.0.1.9");
    let report = mock_report(&wired);
    assert!(matches!(report, MockReport::RunFailed(_)));
    assert_eq!(wired.ends.borrow().as_slice(), ["invalid input".to_string()]);
    let error = wired.circuit.verify(report).unwrap_err();
    assert_eq!(error.message(), "Error running prover: General synthesis error");
    assert!(error.message().starts_with("Error running prover: "));
}

#[test]
fn letters_are_refused_at_construction() {
    assert!(IPCheckCircuit::new("abc.0.0.1".to_string()).is_err());
}

#[test]
fn empty_string_does_not_verify() {
    assert!(IPCheckCircuit::new(String::new()).is_ok());
    assert_eq!(mock_verify::<SegmentsFixed>(""), Ok(false));
}

#[test]
fn loopback_verifies_under_every_shape() {
    assert_eq!(mock_verify::<SegmentsSelector>("127.0.0.1"), Ok(true));
    assert_eq!(mock_verify::<BytesFixed>("127.0.0.1"), Ok(true));
    assert_eq!(mock_verify::<BytesSelector>("127.0.0.1"), Ok(true));
}

#[test]
fn other_address_fails_under_every_shape() {
    assert_eq!(mock_verify::<SegmentsSelector>("127.0.0.2"), Ok(false));
    assert_eq!(mock_verify::<BytesFixed>("127.0.0.2"), Ok(false));
    assert_eq!(mock_verify::<BytesSelector>("127.0.0.2"), Ok(false));
}

#[test]
fn leading_zeros_read_as_the_same_address() {
    assert_eq!(mock_verify::<SegmentsFixed>("127.000.0.01"), Ok(true));
    assert_eq!(mock_verify::<BytesSelector>("127.000.0.01"), Ok(false));
}

#[test]
fn every_single_character_change_is_rejected() {
    let target = "127.0.0.1";
    for at in 0..target.len() {
        for c in "0123456789.".chars() {
            if target.as_bytes()[at] == c as u8 {
                continue;
            }
            let mut changed: Vec<char> = target.chars().collect();
            changed[at] = c;
            let changed: String = changed.into_iter().collect();
            assert_eq!(mock_verify::<SegmentsFixed>(&changed), Ok(false), "{}", changed);
            assert_eq!(mock_verify::<BytesSelector>(&changed), Ok(false), "{}", changed);
        }
    }
}

#[test]
fn every_single_symbol_change_is_rejected() {
    let expected = [127u8, 0, 0, 1];
    for at in 0..4 {
        for other in [0u8, 1, 2, 126, 127, 128, 255] {
            if other == expected[at] {
                continue;
            }
            let mut symbols = expected;
            symbols[at] = other;
            let text = format!("{}.{}.{}.{}", symbols[0], symbols[1], symbols[2], symbols[3]);
            assert_eq!(mock_verify::<SegmentsFixed>(&text), Ok(false), "{}", text);
            assert_eq!(mock_verify::<SegmentsSelector>(&text), Ok(false), "{}", text);
        }
    }
}

#[test]
fn prefix_and_extension_are_rejected_under_the_byte_policy() {
    assert_eq!(mock_verify::<BytesSelector>("127"), Ok(false));
    assert_eq!(mock_verify::<BytesSelector>("127.0.0.1xyz"), Ok(false));
    assert_eq!(mock_verify::<BytesFixed>("127.0.0.10"), Ok(false));
}

#[test]
fn too_many_bytes_do_not_verify() {
    let wired = Wired::<BytesSelector>::of("127.0.0.1.0.0.0.");
    let report = mock_report(&wired);
    assert!(matches!(report, MockReport::RunFailed(_)));
    assert_eq!(wired.ends.borrow().as_slice(), ["invalid input".to_string()]);
    assert_eq!(
        wired.circuit.verify(report),
        Err(VerificationError::Prover("General synthesis error".to_string()))
    );
}

#[test]
fn strings_that_do_not_decode_are_errors_unless_one_character_off() {
    for text in ["1.2.3", "1.2.3.4.5", "256.0.0.1", "1..2.3", "127.0.0.1.", "999.999.999.999"] {
        let error = mock_verify::<SegmentsFixed>(text).unwrap_err();
        assert!(error.message().starts_with("Error running prover: "), "{}", text);
    }
    for text in ["127.0.0..", ".27.0.0.1", "12700.0.1", "127.0.0.", "127..0.0.1"] {
        let answer = mock_verify::<SegmentsFixed>(text);
        if text.len() == 9 {
            assert_eq!(answer, Ok(false), "{}", text);
        } else {
            assert!(answer.is_err(), "{}", text);
        }
    }
}

#[test]
fn address_followed_by_nul_is_accepted_under_the_byte_policy() {
    assert_eq!(mock_verify::<BytesSelector>("127.0.0.1\0"), Ok(true));
    assert_eq!(mock_verify::<BytesFixed>("127.0.0.1\0\0\0\0\0\0"), Ok(true));
    assert_eq!(mock_verify::<BytesFixed>("127.0.0.1\0a"), Ok(false));
    assert_eq!(mock_verify::<BytesFixed>("\0127.0.0.1"), Ok(false));
}

#[test]
fn verify_gives_the_same_answer_each_time() {
    for text in ["127.0.0.1", "127.0.0.2", "1.2.3", ""] {
        let wired = Wired::<SegmentsFixed>::of(text);
        let first = wired.circuit.verify(mock_report(&wired));
        let second = wired.circuit.verify(mock_report(&wired));
        let third = wired.circuit.verify(mock_report(&wired));
        assert_eq!(first, second);
        assert_eq!(second, third);
    }
}

#[test]
fn synthesis_succeeds_even_when_the_constraints_fail() {
    let wired = Wired::<SegmentsFixed>::of("10.0.0.1");
    let report = mock_report(&wired);
    assert_eq!(report, MockReport::Evaluated(false));
    assert!(!wired.ends.borrow().is_empty());
    assert!(wired.ends.borrow().iter().all(|end| end == "done"));
}

#[test]
fn layout_for_another_policy_is_a_mismatch() {
    let circuit = IPCheckCircuit::new("127.0.0.1".to_string()).unwrap();
    let wired = Wired::<BytesFixed>::new(circuit);
    let report = mock_report(&wired);
    assert!(matches!(report, MockReport::RunFailed(_)));
    assert_eq!(wired.ends.borrow().as_slice(), ["layout mismatch".to_string()]);
    match wired.circuit.verify(report) {
        Err(VerificationError::Prover(detail)) => assert!(!detail.is_empty()),
        other => panic!("expected a prover error, got {:?}", other),
    }
}

#[test]
fn run_failure_text_is_carried_into_the_error() {
    let circuit = IPCheckCircuit::new("127.0.0.1".to_string()).unwrap();
    let wired = Wired::<BytesFixed>::new(circuit);
    let report = mock_report(&wired);
    let error = wired.circuit.verify(report).unwrap_err();
    assert_eq!(error.message(), "Error running prover: General synthesis error");
}

#[test]
fn proof_of_loopback_is_accepted() {
    let (params, proof, outcome) = prove::<SegmentsFixed>("127.0.0.1");
    let circuit = IPCheckCircuit::new("127.0.0.1".to_string()).unwrap();
    let bytes = circuit.get_proof(outcome).unwrap();
    assert_eq!(Some(bytes.clone()), proof);
    assert!(!bytes.is_empty());
    assert!(proof_is_accepted::<SegmentsFixed>(&params, &bytes));
}

#[test]
fn proof_of_loopback_is_accepted_with_selector_binding() {
    let (params, _, outcome) = prove::<BytesSelector>("127.0.0.1");
    let circuit = IPCheckCircuit::with_encoding("127.0.0.1".to_string(), Encoding::Bytes).unwrap();
    let bytes = circuit.get_proof(outcome).unwrap();
    assert!(proof_is_accepted::<BytesSelector>(&params, &bytes));
}

#[test]
fn proof_of_other_address_is_not_accepted() {
    let (params, _, outcome) = prove::<SegmentsFixed>("127.0.0.2");
    let circuit = IPCheckCircuit::new("127.0.0.2".to_string()).unwrap();
    match circuit.get_proof(outcome) {
        Ok(bytes) => assert!(!proof_is_accepted::<SegmentsFixed>(&params, &bytes)),
        Err(ProofError::Prover(_, _)) => {}
        Err(other) => panic!("unexpected error {:?}", other),
    }
}

#[test]
fn tampered_proof_is_not_accepted() {
    let (params, proof, _) = prove::<SegmentsFixed>("127.0.0.1");
    let mut bytes = proof.unwrap();
    let last = bytes.len() - 1;
    bytes[last] ^= 1;
    assert!(!proof_is_accepted::<SegmentsFixed>(&params, &bytes));
}

#[test]
fn malformed_input_gives_no_proof() {
    let (_, proof, outcome) = prove::<SegmentsFixed>("127.0.0.1.9");
    assert_eq!(proof, None);
    assert!(matches!(outcome, ProverOutcome::Failed(ProofStage::VerifyingKey, _)));
    let circuit = IPCheckCircuit::new("127.0.0.1.9".to_string()).unwrap();
    let error = circuit.get_proof(outcome).unwrap_err();
    assert_eq!(error, ProofError::Prover(ProofStage::VerifyingKey, "Synthesis".to_string()));
    assert_eq!(error.message(), "Error generating verifying key: Synthesis");
}

#[test]
fn region_refusal_is_a_backend_error() {
    let wired = Wired::<BytesFixed>::of("127.0.0.1");
    let report = mock_report_at(4, &wired);
    assert_eq!(
        report,
        MockReport::RunFailed(
            "k = 4 is too small for the given circuit. Try using a larger value of k".to_string()
        )
    );
    assert_eq!(wired.ends.borrow().last(), Some(&"backend".to_string()));
    assert_eq!(
        wired.circuit.verify(report).unwrap_err().message(),
        "Error running prover: k = 4 is too small for the given circuit. Try using a larger value of k"
    );
}

#[test]
fn layout_is_reused_across_attempts() {
    let wired = Wired::<SegmentsFixed>::of("127.0.0.1");
    let mut meta = ConstraintSystem::<Fq>::default();
    let config = Wired::<SegmentsFixed>::configure(&mut meta);
    assert_eq!(config.column_count(), 4);
    assert_eq!(config.strategy(), BindingStrategy::FixedColumn);
    let pinned = format!("{:?}", meta.pinned());
    assert!(pinned.contains("num_fixed_columns: 1,"), "{}", pinned);
    assert!(pinned.contains("num_advice_columns: 4,"), "{}", pinned);
    assert!(pinned.contains("num_selectors: 0,"), "{}", pinned);
    let copy = config.clone();
    assert_eq!(copy.column_count(), 4);
    assert_eq!(mock_report(&wired), MockReport::Evaluated(true));
    assert_eq!(mock_report(&wired), MockReport::Evaluated(true));
}

#[test]
fn selector_layout_declares_its_slots() {
    let mut meta = ConstraintSystem::<Fq>::default();
    let config = Wired::<BytesSelector>::configure(&mut meta);
    assert_eq!(config.column_count(), 15);
    assert_eq!(config.strategy(), BindingStrategy::SelectorConstant);
    let pinned = format!("{:?}", meta.pinned());
    assert!(pinned.contains("num_fixed_columns: 1,"), "{}", pinned);
    assert!(pinned.contains("num_advice_columns: 15,"), "{}", pinned);
    assert!(pinned.contains("num_selectors: 1,"), "{}", pinned);
}
