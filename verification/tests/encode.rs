use ip_check::circuit::check_address_text;
use ip_check::encode::{
    collect_chars, encode, encode_bytes, encode_segments, expected, parse_segment, split_bounds,
    target_chars, EncodeError, Encoding, COLUMN_COUNT, SEGMENT_COUNT,
};
use ip_check::layout::columns_for;
use ip_check::orchestrate::{
    is_one_character_off, MockReport, ProofError, ProofStage, ProverOutcome, VerificationError,
};
use ip_check::{ConstructionError, IPCheckCircuit};

fn reference_segments(text: &str) -> Option<Vec<u8>> {
    let parts: Vec<&str> = text.split('.').collect();
    if parts.len() != 4 {
        return None;
    }
    let mut symbols = Vec::new();
    for part in parts {
        symbols.push(part.parse::<u8>().ok()?);
    }
    Some(symbols)
}

fn parse_text(text: &str) -> Option<u8> {
    let chars: Vec<char> = text.chars().collect();
    parse_segment(&chars, 0, chars.len())
}

fn pieces(text: &str) -> Vec<String> {
    let chars: Vec<char> = text.chars().collect();
    split_bounds(&chars).into_iter().map(|(from, to)| chars[from..to].iter().collect()).collect()
}

#[test]
fn loopback_encodes_to_four_segments() {
    assert_eq!(encode(Encoding::Segments, "127.0.0.1"), Ok(vec![127u8, 0, 0, 1]));
    assert_eq!(encode_segments("127.0.0.1"), Ok(vec![127u8, 0, 0, 1]));
}

#[test]
fn other_addresses_encode_to_their_segments() {
    assert_eq!(encode_segments("0.0.0.0"), Ok(vec![0u8, 0, 0, 0]));
    assert_eq!(encode_segments("255.255.255.255"), Ok(vec![255u8, 255, 255, 255]));
    assert_eq!(encode_segments("1.22.133.4"), Ok(vec![1u8, 22, 133, 4]));
}

#[test]
fn loopback_encodes_to_its_bytes_and_zeros() {
    let expected_bytes = vec![49u8, 50, 55, 46, 48, 46, 48, 46, 49, 0, 0, 0, 0, 0, 0];
    assert_eq!(encode(Encoding::Bytes, "127.0.0.1"), Ok(expected_bytes.clone()));
    assert_eq!(encode_bytes("127.0.0.1"), Ok(expected_bytes));
}

#[test]
fn byte_policy_takes_up_to_fifteen_bytes() {
    assert_eq!(encode_bytes(""), Ok(vec![0u8; 15]));
    assert_eq!(encode_bytes("abcdefghijklmno"), Ok(b"abcdefghijklmno".to_vec()));
    assert_eq!(encode_bytes("abcdefghijklmnop"), Err(EncodeError::MalformedInput));
    assert_eq!(encode_bytes("\u{e9}"), Ok(vec![0xc3u8, 0xa9, 0, 0, 0, 0, 0, 0, 0, 0, 0, 0, 0, 0, 0]));
}

#[test]
fn expected_value_is_the_loopback_address() {
    assert_eq!(expected(Encoding::Segments), vec![127u8, 0, 0, 1]);
    assert_eq!(expected(Encoding::Segments).len(), SEGMENT_COUNT);
    assert_eq!(expected(Encoding::Bytes).len(), COLUMN_COUNT);
    assert_eq!(&expected(Encoding::Bytes)[..9], "127.0.0.1".as_bytes());
    assert_eq!(&expected(Encoding::Bytes)[9..], &[0u8; 6]);
    assert_eq!(Ok(expected(Encoding::Segments)), encode(Encoding::Segments, "127.0.0.1"));
    assert_eq!(Ok(expected(Encoding::Bytes)), encode(Encoding::Bytes, "127.0.0.1"));
}

#[test]
fn column_counts_follow_the_policy() {
    assert_eq!(columns_for(Encoding::Segments), 4);
    assert_eq!(columns_for(Encoding::Bytes), 15);
}

#[test]
fn five_segments_are_malformed() {
    assert_eq!(encode(Encoding::Segments, "127.0.0.1.9"), Err(EncodeError::MalformedInput));
}

#[test]
fn wrong_segment_counts_are_malformed() {
    for text in ["", "127", "127.0", "127.0.0", "127.0.0.1.", ".127.0.0.1", "1.2.3.4.5.6"] {
        assert_eq!(encode_segments(text), Err(EncodeError::MalformedInput), "{:?}", text);
    }
}

#[test]
fn segments_that_are_no_bytes_are_malformed() {
    for text in [
        "256.0.0.1", "127.0.0.999", "127..0.1", "...", "abc.0.0.1", "127.0.0.-1", "127.0.0.1 ",
        " 127.0.0.1", "127.0.0.+", "127.0.0.++1", "127.0.0.1e0", "127.0.0.0x1", "1000.0.0.1",
        "127.0.0.99999999999999999999",
    ] {
        assert_eq!(encode_segments(text), Err(EncodeError::MalformedInput), "{:?}", text);
    }
}

#[test]
fn leading_zeros_and_plus_sign_are_read() {
    assert_eq!(encode_segments("127.000.0.01"), Ok(vec![127u8, 0, 0, 1]));
    assert_eq!(encode_segments("+127.+0.0.1"), Ok(vec![127u8, 0, 0, 1]));
    assert_eq!(encode_segments("0000000255.0.0.1"), Ok(vec![255u8, 0, 0, 1]));
}

#[test]
fn parse_segment_reads_exact_values() {
    assert_eq!(parse_text("0"), Some(0));
    assert_eq!(parse_text("7"), Some(7));
    assert_eq!(parse_text("127"), Some(127));
    assert_eq!(parse_text("255"), Some(255));
    assert_eq!(parse_text("256"), None);
    assert_eq!(parse_text("+255"), Some(255));
    assert_eq!(parse_text(""), None);
    assert_eq!(parse_text("+"), None);
    assert_eq!(parse_text("-0"), None);
    assert_eq!(parse_text("1a"), None);
    let chars: Vec<char> = "x12y".chars().collect();
    assert_eq!(parse_segment(&chars, 1, 3), Some(12));
    assert_eq!(parse_segment(&chars, 1, 1), None);
    assert_eq!(parse_segment(&chars, 0, 3), None);
}

#[test]
fn parse_segment_agrees_with_the_standard_parser() {
    let alphabet = ['0', '1', '2', '5', '6', '9', '+', '-', 'a', ' '];
    let mut texts: Vec<String> = vec![String::new()];
    let mut last: Vec<String> = vec![String::new()];
    for _ in 0..4 {
        let mut next = Vec::new();
        for text in &last {
            for c in alphabet {
                let mut longer = text.clone();
                longer.push(c);
                next.push(longer);
            }
        }
        texts.extend(next.iter().cloned());
        last = next;
    }
    assert_eq!(texts.len(), 1 + 10 + 100 + 1000 + 10000);
    for text in texts {
        assert_eq!(parse_text(&text), text.parse::<u8>().ok(), "{:?}", text);
    }
}

#[test]
fn encoding_agrees_with_split_and_parse() {
    let alphabet = ['1', '.', '+', '7'];
    let mut last: Vec<String> = vec![String::new()];
    let mut count = 0;
    for _ in 0..8 {
        let mut next = Vec::new();
        for text in &last {
            for c in alphabet {
                let mut longer = text.clone();
                longer.push(c);
                next.push(longer);
            }
        }
        for text in &next {
            assert_eq!(encode_segments(text).ok(), reference_segments(text), "{:?}", text);
            count += 1;
        }
        last = next;
    }
    assert_eq!(count, 4 + 16 + 64 + 256 + 1024 + 4096 + 16384 + 65536);
}

#[test]
fn split_gives_the_pieces_between_dots() {
    assert_eq!(pieces(""), vec![""]);
    assert_eq!(pieces("."), vec!["", ""]);
    assert_eq!(pieces("a"), vec!["a"]);
    assert_eq!(pieces("127.0.0.1"), vec!["127", "0", "0", "1"]);
    assert_eq!(pieces("..a.bc."), vec!["", "", "a", "bc", ""]);
    let chars: Vec<char> = "1.23".chars().collect();
    assert_eq!(split_bounds(&chars), vec![(0, 1), (2, 4)]);
}

#[test]
fn collect_chars_keeps_every_character() {
    assert_eq!(collect_chars(""), Vec::<char>::new());
    assert_eq!(collect_chars("1.2"), vec!['1', '.', '2']);
    assert_eq!(collect_chars("\u{e9}a"), vec!['\u{e9}', 'a']);
}

#[test]
fn address_text_is_digits_and_dots() {
    assert!(check_address_text(""));
    assert!(check_address_text("0123456789."));
    assert!(check_address_text("...."));
    assert!(!check_address_text("127.0.0.1 "));
    assert!(!check_address_text("abc.0.0.1"));
    assert!(!check_address_text("127,0,0,1"));
    assert!(!check_address_text("+1.0.0.1"));
    assert!(!check_address_text("/"));
    assert!(!check_address_text(":"));
    assert!(!check_address_text("\u{661}"));
}

#[test]
fn construction_refuses_other_characters() {
    assert_eq!(
        IPCheckCircuit::new("abc.0.0.1".to_string()).err(),
        Some(ConstructionError::InvalidFormat)
    );
    assert_eq!(
        IPCheckCircuit::new("127.0.0.1\n".to_string()).err(),
        Some(ConstructionError::InvalidFormat)
    );
    assert_eq!(ConstructionError::InvalidFormat.message(), "Invalid IP format");
}

#[test]
fn construction_keeps_the_string_and_the_policy() {
    let circuit = IPCheckCircuit::new("127.0.0.1".to_string()).unwrap();
    assert_eq!(circuit.ip_string(), "127.0.0.1");
    assert_eq!(circuit.encoding(), Encoding::Segments);
    let circuit = IPCheckCircuit::with_encoding("hello".to_string(), Encoding::Bytes).unwrap();
    assert_eq!(circuit.ip_string(), "hello");
    assert_eq!(circuit.encoding(), Encoding::Bytes);
    let blank = circuit.without_witnesses();
    assert_eq!(blank.ip_string(), "");
    assert_eq!(blank.encoding(), Encoding::Bytes);
}

#[test]
fn byte_policy_admits_ascii_only() {
    assert!(IPCheckCircuit::with_encoding("abc xyz!".to_string(), Encoding::Bytes).is_ok());
    assert!(IPCheckCircuit::with_encoding(String::new(), Encoding::Bytes).is_ok());
    assert_eq!(
        IPCheckCircuit::with_encoding("h\u{e9}llo".to_string(), Encoding::Bytes).err(),
        Some(ConstructionError::InvalidFormat)
    );
    assert_eq!(
        IPCheckCircuit::with_encoding("hello".to_string(), Encoding::Segments).err(),
        Some(ConstructionError::InvalidFormat)
    );
}

#[test]
fn verify_follows_the_report_for_encoded_input() {
    let circuit = IPCheckCircuit::new("127.0.0.1".to_string()).unwrap();
    assert_eq!(circuit.verify(MockReport::Evaluated(true)), Ok(true));
    assert_eq!(circuit.verify(MockReport::Evaluated(false)), Ok(false));
    assert_eq!(
        circuit.verify(MockReport::RunFailed("no rows".to_string())),
        Err(VerificationError::Prover("no rows".to_string()))
    );
}

#[test]
fn verify_is_never_true_for_input_without_encoding() {
    for text in ["", "127.0.0.1.9", "256.0.0.1", "1..2.3", "127.0.0..", "12700.0.1"] {
        let circuit = IPCheckCircuit::new(text.to_string()).unwrap();
        assert_eq!(circuit.verify(MockReport::Evaluated(true)), Ok(false));
        assert_eq!(circuit.verify(MockReport::Evaluated(false)), Ok(false));
    }
}

#[test]
fn failed_run_is_false_for_plainly_rejected_input_only() {
    for text in ["", "127.0.0..", "12700.0.1", ".27.0.0.1", "127.0.0.."] {
        let circuit = IPCheckCircuit::new(text.to_string()).unwrap();
        assert_eq!(circuit.verify(MockReport::RunFailed("x".to_string())), Ok(false), "{}", text);
    }
    for text in ["127.0.0.1.9", "256.0.0.1", "1..2.3", "1.2.3", ".", "127.0.0.1."] {
        let circuit = IPCheckCircuit::new(text.to_string()).unwrap();
        assert_eq!(
            circuit.verify(MockReport::RunFailed("x".to_string())),
            Err(VerificationError::Prover("x".to_string())),
            "{}",
            text
        );
    }
    for text in ["127.0.0.1", "127.0.0.2", "127.0.0.9"] {
        let circuit = IPCheckCircuit::new(text.to_string()).unwrap();
        assert_eq!(
            circuit.verify(MockReport::RunFailed("x".to_string())),
            Err(VerificationError::Prover("x".to_string())),
            "{}",
            text
        );
    }
}

#[test]
fn one_character_off_means_same_length_and_one_difference() {
    assert!(!is_one_character_off("127.0.0.1"));
    assert!(is_one_character_off("127.0.0.2"));
    assert!(is_one_character_off("027.0.0.1"));
    assert!(is_one_character_off("127.0.0.."));
    assert!(is_one_character_off("127x0.0.1"));
    assert!(is_one_character_off("127.0.0.\u{e9}"));
    assert!(!is_one_character_off("127.0.1.2"));
    assert!(!is_one_character_off("227.0.0.2"));
    assert!(!is_one_character_off("127.0.0.10"));
    assert!(!is_one_character_off("127.0.0."));
    assert!(!is_one_character_off(""));
    assert_eq!(target_chars(), "127.0.0.1".chars().collect::<Vec<char>>());
}

#[test]
fn get_proof_follows_the_outcome_for_encoded_input() {
    let circuit = IPCheckCircuit::new("127.0.0.1".to_string()).unwrap();
    assert_eq!(circuit.get_proof(ProverOutcome::Proved(vec![1, 2, 3])), Ok(vec![1u8, 2, 3]));
    for stage in [ProofStage::VerifyingKey, ProofStage::ProvingKey, ProofStage::Proof] {
        assert_eq!(
            circuit.get_proof(ProverOutcome::Failed(stage, "Opening".to_string())),
            Err(ProofError::Prover(stage, "Opening".to_string()))
        );
    }
}

#[test]
fn get_proof_gives_no_proof_for_input_without_encoding() {
    let circuit = IPCheckCircuit::new("1.2.3".to_string()).unwrap();
    assert_eq!(circuit.get_proof(ProverOutcome::Proved(vec![1])), Err(ProofError::InvalidInput));
    for stage in [ProofStage::VerifyingKey, ProofStage::ProvingKey, ProofStage::Proof] {
        assert_eq!(
            circuit.get_proof(ProverOutcome::Failed(stage, "Synthesis".to_string())),
            Err(ProofError::Prover(stage, "Synthesis".to_string()))
        );
    }
}

#[test]
fn error_texts_name_the_failed_step() {
    assert_eq!(
        VerificationError::Prover("Synthesis".to_string()).message(),
        "Error running prover: Synthesis"
    );
    assert_eq!(
        ProofError::Prover(ProofStage::VerifyingKey, "Synthesis".to_string()).message(),
        "Error generating verifying key: Synthesis"
    );
    assert_eq!(
        ProofError::Prover(ProofStage::ProvingKey, "Synthesis".to_string()).message(),
        "Error generating proving key: Synthesis"
    );
    assert_eq!(
        ProofError::Prover(ProofStage::Proof, "Opening".to_string()).message(),
        "Error creating proof: Opening"
    );
    assert_eq!(ProofError::InvalidInput.message(), "Invalid IP format");
}
