//! What holds of the circuit as a whole.
//!
//! The first part characterises the splitting of a string at its dots. The
//! second part shows which strings the circuit accepts: the address 127.0.0.1
//! is accepted under every policy and strategy, no other admissible string of
//! its length is, and a string without an encoding never gets the answer
//! `true`. Two kinds of other strings are accepted, and the laws say so: under
//! the segment policy a string whose segments read as 127, 0, 0 and 1, with
//! leading zeros or a plus sign; under the byte policy the address followed
//! by NUL characters. "Accepted" refers to the requests that synthesis makes
//! of a region and to what those requests mean (`constraints_hold`); the
//! answer of the proving system itself is outside this library.
use crate::circuit::{admissible, IPCheckCircuit};
use crate::encode::{
    all_digits, byte_symbols, decimal_value, digit_value, encode_spec, expected_symbols,
    is_digit, parse_u8, segment_symbols, split_on_dot, symbol_count, target_text, unsigned_part,
    Encoding, COLUMN_COUNT,
};
use crate::layout::BindingStrategy;
use crate::orchestrate::{
    differs_only_at, one_character_off, plainly_rejected, stage_context, MockReport, ProofError,
    ProofStage, ProverOutcome, VerificationError,
};
use crate::region::constraints_hold;
use crate::synth::lemma_bindings_decide;
use vstd::prelude::*;
use vstd::utf8::{encode_utf8, is_ascii_chars, is_ascii_chars_encode_utf8};

verus! {

/// `s` holds no dot.
pub open spec fn dot_free(s: Seq<char>) -> bool {
    forall|i: int| 0 <= i < s.len() ==> #[trigger] s[i] != '.'
}

/// The pieces `parts` written one after the other with a dot between
/// neighbours.
pub open spec fn join_with_dot(parts: Seq<Seq<char>>) -> Seq<char>
    decreases parts.len(),
{
    if parts.len() == 0 {
        Seq::<char>::empty()
    } else if parts.len() == 1 {
        parts[0]
    } else {
        join_with_dot(parts.drop_last()) + seq!['.'] + parts.last()
    }
}

/// Splitting a string gives at least one piece, no piece holds a dot, and
/// the pieces joined by dots are the string again.
pub proof fn lemma_split_joins(s: Seq<char>)
    ensures
        split_on_dot(s).len() >= 1,
        join_with_dot(split_on_dot(s)) == s,
        forall|k: int| 0 <= k < split_on_dot(s).len() ==> dot_free(#[trigger] split_on_dot(s)[k]),
    decreases s.len(),
{
    let after = split_on_dot(s);
    if s.len() == 0 {
        assert(join_with_dot(after) =~= s);
    } else {
        let t = s.drop_last();
        let c = s.last();
        let before = split_on_dot(t);
        lemma_split_joins(t);
        assert(s =~= t.push(c));
        if c == '.' {
            assert(after.drop_last() =~= before);
            assert(join_with_dot(after) =~= s);
        } else {
            let grown = before.last().push(c);
            if before.len() == 1 {
                assert(join_with_dot(after) =~= s);
            } else {
                assert(after.drop_last() =~= before.drop_last());
                assert(join_with_dot(after) =~= join_with_dot(before).push(c));
            }
            assert forall|k: int| 0 <= k < after.len() implies dot_free(#[trigger] after[k]) by {
                if k < after.len() - 1 {
                    assert(after[k] == before[k]);
                } else {
                    assert(dot_free(before[k]));
                    assert forall|i: int| 0 <= i < grown.len() implies #[trigger] grown[i]
                        != '.' by {
                        if i < grown.len() - 1 {
                            assert(grown[i] == before[k][i]);
                        }
                    }
                }
            }
        }
    }
}

/// Pieces without dots are what splitting their join gives back: the split of
/// a string is the only way to write it as dot-free pieces joined by dots.
pub proof fn lemma_split_unique(parts: Seq<Seq<char>>)
    requires
        parts.len() >= 1,
        forall|k: int| 0 <= k < parts.len() ==> dot_free(#[trigger] parts[k]),
    ensures
        split_on_dot(join_with_dot(parts)) == parts,
    decreases join_with_dot(parts).len(),
{
    let s = join_with_dot(parts);
    let last = parts.last();
    if last.len() == 0 {
        assert(last =~= Seq::<char>::empty());
        if parts.len() == 1 {
            assert(split_on_dot(s) =~= parts);
        } else {
            let shorter = parts.drop_last();
            assert(s =~= join_with_dot(shorter).push('.'));
            assert(s.drop_last() =~= join_with_dot(shorter));
            assert forall|k: int| 0 <= k < shorter.len() implies dot_free(
                #[trigger] shorter[k],
            ) by {
                assert(shorter[k] == parts[k]);
            }
            lemma_split_unique(shorter);
            assert(s.last() == '.');
            assert(split_on_dot(s.drop_last()) == shorter);
            assert(shorter.push(Seq::<char>::empty()) =~= parts);
        }
    } else {
        let c = last.last();
        assert(dot_free(parts[parts.len() - 1]));
        assert(last[last.len() - 1] != '.');
        let shrunk = parts.update(parts.len() - 1, last.drop_last());
        if parts.len() == 1 {
            assert(join_with_dot(shrunk) =~= s.drop_last());
        } else {
            assert(shrunk.drop_last() =~= parts.drop_last());
            assert(join_with_dot(shrunk) =~= s.drop_last());
        }
        assert(s.last() == c);
        assert forall|k: int| 0 <= k < shrunk.len() implies dot_free(#[trigger] shrunk[k]) by {
            assert(dot_free(parts[k]));
            if k == parts.len() - 1 {
                assert forall|i: int| 0 <= i < shrunk[k].len() implies #[trigger] shrunk[k][i]
                    != '.' by {
                    assert(shrunk[k][i] == parts[k][i]);
                }
            }
        }
        lemma_split_unique(shrunk);
        assert(split_on_dot(s.drop_last()) == shrunk);
        assert(last.drop_last().push(c) =~= last);
        assert(shrunk.update(shrunk.len() - 1, shrunk.last().push(c)) =~= parts);
    }
}

/// The value of a string of at most three digits, digit by digit.
proof fn lemma_short_decimal(d: Seq<char>)
    requires
        d.len() <= 3,
    ensures
        d.len() == 1 ==> decimal_value(d) == digit_value(d[0]),
        d.len() == 2 ==> decimal_value(d) == digit_value(d[0]) * 10 + digit_value(d[1]),
        d.len() == 3 ==> decimal_value(d) == digit_value(d[0]) * 100 + digit_value(d[1]) * 10
            + digit_value(d[2]),
    decreases d.len(),
{
    if d.len() > 0 {
        let shorter = d.drop_last();
        lemma_short_decimal(shorter);
        if shorter.len() == 0 {
            assert(decimal_value(shorter) == 0);
        } else {
            assert(shorter[0] == d[0]);
            if shorter.len() == 2 {
                assert(shorter[1] == d[1]);
            }
        }
    }
}

/// What a piece that reads as the number `v` looks like: it is not empty; it
/// has three characters or more if `v` is 100 or more; a piece of one
/// character is the digit of `v`; a piece of three characters that reads as
/// 100 or more is the three digits of `v`.
proof fn lemma_piece_shape(p: Seq<char>, v: u8)
    requires
        parse_u8(p) == Some(v),
    ensures
        p.len() >= 1,
        v >= 100 ==> p.len() >= 3,
        p.len() == 1 ==> is_digit(p[0]) && digit_value(p[0]) == v,
        p.len() == 3 && v >= 100 ==> all_digits(p) && v == digit_value(p[0]) * 100 + digit_value(
            p[1],
        ) * 10 + digit_value(p[2]),
{
    let d = unsigned_part(p);
    assert(forall|i: int| 0 <= i < d.len() ==> is_digit(#[trigger] d[i]));
    if d.len() <= 3 {
        lemma_short_decimal(d);
        if d.len() >= 1 {
            assert(is_digit(d[0]));
        }
        if d.len() >= 2 {
            assert(is_digit(d[1]));
        }
        if d.len() >= 3 {
            assert(is_digit(d[2]));
        }
    }
}

/// The address 127.0.0.1 has an encoding under either policy, and it is the
/// expected value.
pub proof fn lemma_target_encodes(encoding: Encoding)
    ensures
        encode_spec(encoding, target_text()) == Some(expected_symbols(encoding)),
{
    match encoding {
        Encoding::Segments => {
            let first = seq!['1', '2', '7'];
            let parts = seq![first, seq!['0'], seq!['0'], seq!['1']];
            let three = parts.drop_last();
            let two = three.drop_last();
            let one = two.drop_last();
            assert(one.len() == 1 && one[0] == first);
            assert(join_with_dot(one) == first);
            assert(two.len() == 2 && two.last() == seq!['0']);
            assert(three.len() == 3 && three.last() == seq!['0']);
            assert(parts.len() == 4 && parts.last() == seq!['1']);
            assert(join_with_dot(two) =~= seq!['1', '2', '7', '.', '0']);
            assert(join_with_dot(three) =~= seq!['1', '2', '7', '.', '0', '.', '0']);
            assert(join_with_dot(parts) =~= target_text());
            assert forall|k: int| 0 <= k < parts.len() implies dot_free(#[trigger] parts[k]) by {}
            lemma_split_unique(parts);
            lemma_short_decimal(first);
            lemma_short_decimal(seq!['0']);
            lemma_short_decimal(seq!['1']);
            assert(parse_u8(parts[0]) == Some(127u8));
            assert(parse_u8(parts[1]) == Some(0u8));
            assert(parse_u8(parts[2]) == Some(0u8));
            assert(parse_u8(parts[3]) == Some(1u8));
            assert(segment_symbols(target_text()).unwrap() =~= expected_symbols(encoding));
        },
        Encoding::Bytes => {
            assert(is_ascii_chars(target_text()));
            is_ascii_chars_encode_utf8(target_text());
            let bytes = encode_utf8(target_text());
            assert(bytes[0] == 49 && bytes[1] == 50 && bytes[2] == 55 && bytes[3] == 46);
            assert(bytes[4] == 48 && bytes[5] == 46 && bytes[6] == 48 && bytes[7] == 46);
            assert(bytes[8] == 49);
            assert(byte_symbols(bytes).unwrap() =~= expected_symbols(encoding));
        },
    }
}

/// A string of at most nine characters whose segments are 127, 0, 0 and 1 is
/// the text 127.0.0.1 itself.
pub proof fn lemma_shortest_accepted_text(input: Seq<char>)
    requires
        input.len() <= target_text().len(),
        segment_symbols(input) == Some(expected_symbols(Encoding::Segments)),
    ensures
        input == target_text(),
{
    let parts = split_on_dot(input);
    let symbols = segment_symbols(input).unwrap();
    lemma_split_joins(input);
    assert(parse_u8(parts[0]) == Some(symbols[0]));
    assert(parse_u8(parts[1]) == Some(symbols[1]));
    assert(parse_u8(parts[2]) == Some(symbols[2]));
    assert(parse_u8(parts[3]) == Some(symbols[3]));
    lemma_piece_shape(parts[0], 127);
    lemma_piece_shape(parts[1], 0);
    lemma_piece_shape(parts[2], 0);
    lemma_piece_shape(parts[3], 1);
    let three = parts.drop_last();
    let two = three.drop_last();
    let one = two.drop_last();
    assert(join_with_dot(one) == parts[0]);
    assert(join_with_dot(two) == parts[0] + seq!['.'] + parts[1]);
    assert(join_with_dot(three) == join_with_dot(two) + seq!['.'] + parts[2]);
    assert(input == join_with_dot(three) + seq!['.'] + parts[3]);
    assert(input.len() == parts[0].len() + parts[1].len() + parts[2].len() + parts[3].len() + 3);
    assert(parts[0] =~= seq!['1', '2', '7']);
    assert(parts[1] =~= seq!['0']);
    assert(parts[2] =~= seq!['0']);
    assert(parts[3] =~= seq!['1']);
    assert(input =~= target_text());
}

/// What synthesis decides: for a candidate string that has an encoding, the
/// requests that synthesis makes of a region are met if and only if the
/// string encodes to the expected value, under every strategy.
pub proof fn lemma_synthesis_decides(circuit: IPCheckCircuit, strategy: BindingStrategy)
    requires
        circuit.symbols() is Some,
    ensures
        circuit.plan(strategy) is Some,
        constraints_hold(circuit.plan(strategy).unwrap()) <==> circuit.symbols() == Some(
            expected_symbols(circuit.policy()),
        ),
{
    crate::encode::lemma_symbol_count(circuit.policy(), circuit.input());
    lemma_bindings_decide(
        strategy,
        circuit.symbols().unwrap(),
        expected_symbols(circuit.policy()),
    );
}

/// Acceptance of the target: the requests that synthesis makes for the text
/// 127.0.0.1 are met, under every policy and strategy.
pub proof fn lemma_target_accepted(circuit: IPCheckCircuit, strategy: BindingStrategy)
    requires
        circuit.input() == target_text(),
    ensures
        circuit.plan(strategy) is Some,
        constraints_hold(circuit.plan(strategy).unwrap()),
{
    lemma_target_encodes(circuit.policy());
    lemma_bindings_decide(
        strategy,
        expected_symbols(circuit.policy()),
        expected_symbols(circuit.policy()),
    );
}

/// Rejection of every other encoding: where the symbols of the candidate
/// string differ from the expected ones at some position, the requests that
/// synthesis makes are not met.
pub proof fn lemma_differing_symbol_rejected(
    circuit: IPCheckCircuit,
    strategy: BindingStrategy,
    position: int,
)
    requires
        circuit.symbols() is Some,
        0 <= position < symbol_count(circuit.policy()),
        circuit.symbols().unwrap()[position] != expected_symbols(circuit.policy())[position],
    ensures
        circuit.plan(strategy) is Some,
        !constraints_hold(circuit.plan(strategy).unwrap()),
{
    lemma_bindings_decide(
        strategy,
        circuit.symbols().unwrap(),
        expected_symbols(circuit.policy()),
    );
}

/// Rejection of a changed text: an admissible string as long as 127.0.0.1 and
/// different from it is not encoded to the expected value, so the requests
/// that synthesis makes for it, if it has an encoding at all, are not met.
pub proof fn lemma_changed_text_rejected(circuit: IPCheckCircuit, strategy: BindingStrategy)
    requires
        admissible(circuit.policy(), circuit.input()),
        circuit.input().len() == target_text().len(),
        circuit.input() != target_text(),
    ensures
        circuit.symbols() != Some(expected_symbols(circuit.policy())),
        circuit.plan(strategy) is Some ==> !constraints_hold(circuit.plan(strategy).unwrap()),
{
    let input = circuit.input();
    match circuit.policy() {
        Encoding::Segments => {
            if segment_symbols(input) == Some(expected_symbols(Encoding::Segments)) {
                lemma_shortest_accepted_text(input);
            }
        },
        Encoding::Bytes => {
            is_ascii_chars_encode_utf8(input);
            is_ascii_chars_encode_utf8(target_text());
            lemma_target_encodes(Encoding::Bytes);
            let bytes = encode_utf8(input);
            let target = encode_utf8(target_text());
            if byte_symbols(bytes) == Some(expected_symbols(Encoding::Bytes)) {
                assert forall|i: int| 0 <= i < input.len() implies input[i] == target_text()[i] by {
                    assert(byte_symbols(bytes).unwrap()[i] == bytes[i]);
                    assert(byte_symbols(target).unwrap()[i] == target[i]);
                    assert(input[i] as u8 == bytes[i]);
                    assert(target_text()[i] as u8 == target[i]);
                    assert('\0' <= input[i] <= '\u{7f}');
                }
                assert(input =~= target_text());
            }
        },
    }
    if circuit.symbols() is Some {
        crate::encode::lemma_symbol_count(circuit.policy(), input);
        lemma_bindings_decide(
            strategy,
            circuit.symbols().unwrap(),
            expected_symbols(circuit.policy()),
        );
    }
}

/// `input` is the accepted address followed by nothing but NUL characters,
/// and has no more characters than there are columns.
pub open spec fn is_padded_target(input: Seq<char>) -> bool {
    &&& target_text().len() <= input.len() <= COLUMN_COUNT
    &&& forall|i: int| 0 <= i < target_text().len() ==> #[trigger] input[i] == target_text()[i]
    &&& forall|i: int| target_text().len() <= i < input.len() ==> #[trigger] input[i] == '\0'
}

/// What the byte policy accepts: an ASCII string encodes to the expected
/// value if and only if it is the accepted address, or the accepted address
/// followed by NUL characters. The padding of the encoding is zero, so a
/// trailing NUL cannot be told from a column that was never filled.
pub proof fn lemma_byte_policy_accepts(input: Seq<char>)
    requires
        is_ascii_chars(input),
    ensures
        encode_spec(Encoding::Bytes, input) == Some(expected_symbols(Encoding::Bytes))
            <==> is_padded_target(input),
{
    is_ascii_chars_encode_utf8(input);
    let bytes = encode_utf8(input);
    let expected = expected_symbols(Encoding::Bytes);
    if byte_symbols(bytes) == Some(expected) {
        let padded = byte_symbols(bytes).unwrap();
        assert forall|i: int| 0 <= i < target_text().len() implies i < input.len()
            && #[trigger] input[i] == target_text()[i] by {
            assert(padded[i] == expected[i]);
            assert(expected[i] != 0);
            assert(input[i] as u8 == bytes[i]);
            assert('\0' <= input[i] <= '\u{7f}');
        }
        assert(input.len() >= target_text().len()) by {
            assert(8 < input.len() && input[8] == target_text()[8]);
        }
        assert forall|i: int| target_text().len() <= i < input.len() implies #[trigger] input[i]
            == '\0' by {
            assert(padded[i] == expected[i]);
            assert(input[i] as u8 == bytes[i]);
            assert('\0' <= input[i] <= '\u{7f}');
        }
    }
    if is_padded_target(input) {
        let padded = byte_symbols(bytes).unwrap();
        assert forall|i: int| 0 <= i < padded.len() implies padded[i] == expected[i] by {
            if i < input.len() {
                assert(input[i] as u8 == bytes[i]);
                if i < target_text().len() {
                    assert(input[i] == target_text()[i]);
                } else {
                    assert(input[i] == '\0');
                }
            }
        }
        assert(padded =~= expected);
    }
}

/// A string of the wrong shape has no encoding: under the segment policy one
/// that does not split into four pieces, or with a piece that is no unsigned
/// 8-bit number; under the byte policy one of more bytes than columns.
pub proof fn lemma_wrong_shape_has_no_encoding(encoding: Encoding, input: Seq<char>)
    ensures
        encoding == Encoding::Segments && split_on_dot(input).len() != 4 ==> encode_spec(
            encoding,
            input,
        ) is None,
        encoding == Encoding::Segments && (exists|k: int|
            0 <= k < split_on_dot(input).len() && (#[trigger] parse_u8(split_on_dot(input)[k]))
                is None) ==> encode_spec(encoding, input) is None,
        encoding == Encoding::Bytes && encode_utf8(input).len() > 15 ==> encode_spec(
            encoding,
            input,
        ) is None,
{
}

/// A candidate string without an encoding never gets the answer `true`: the
/// mock check answers `true` only for a string that has an encoding and a
/// report that every constraint holds. For a string without an encoding the
/// answer is `false` or the proving system's failure, and proof generation
/// gives no proof.
pub proof fn lemma_malformed_never_true(
    circuit: IPCheckCircuit,
    report: MockReport,
    outcome: ProverOutcome,
)
    ensures
        circuit.verdict(report) == Ok::<bool, VerificationError>(true) ==> circuit.symbols()
            is Some && report == MockReport::Evaluated(true),
        circuit.symbols() is None ==> circuit.verdict(report) == Ok::<bool, VerificationError>(
            false,
        ) || (circuit.verdict(report) is Err && report is RunFailed),
        circuit.symbols() is None ==> circuit.proof_result(outcome) is Err,
{
}

/// A string one character off the accepted address is answered with `false`
/// whenever the proving system answers at all or the string has no encoding:
/// where it has an encoding, the requests that synthesis makes for it are not
/// met, and where it has none, the answer is `false` whatever the report.
pub proof fn lemma_single_change_is_false(
    circuit: IPCheckCircuit,
    strategy: BindingStrategy,
    report: MockReport,
)
    requires
        admissible(circuit.policy(), circuit.input()),
        one_character_off(circuit.input()),
    ensures
        circuit.plan(strategy) is Some ==> !constraints_hold(circuit.plan(strategy).unwrap()),
        circuit.symbols() is None ==> circuit.verdict(report) == Ok::<bool, VerificationError>(
            false,
        ),
{
    let p = choose|p: int| differs_only_at(circuit.input(), p);
    assert(circuit.input()[p] != target_text()[p]);
    lemma_changed_text_rejected(circuit, strategy);
}

/// A failure of the proving system is handed on with its context: by the
/// mock check for every string that has an encoding or is not plainly
/// rejected, by proof generation for every string, with the stage that
/// failed.
pub proof fn lemma_failures_are_handed_on(
    circuit: IPCheckCircuit,
    stage: ProofStage,
    detail: String,
)
    ensures
        circuit.symbols() is Some || !plainly_rejected(circuit.input()) ==> circuit.verdict(
            MockReport::RunFailed(detail),
        ) == Err::<bool, VerificationError>(VerificationError::Prover(detail)),
        circuit.proof_result(ProverOutcome::Failed(stage, detail)) == Err::<Vec<u8>, ProofError>(
            ProofError::Prover(stage, detail),
        ),
        ProofError::Prover(stage, detail).message_spec() == stage_context(stage) + detail@,
        VerificationError::Prover(detail).message_spec() == "Error running prover: "@ + detail@,
{
}

/// The answer of the mock check depends on the candidate string, the policy
/// and the report alone: asking again, of this circuit or of another one made
/// from the same string, gives the same answer.
pub proof fn lemma_verify_repeatable(
    first: IPCheckCircuit,
    second: IPCheckCircuit,
    report: MockReport,
)
    requires
        first.input() == second.input(),
        first.policy() == second.policy(),
    ensures
        first.verdict(report) == second.verdict(report),
        forall|strategy: BindingStrategy| first.plan(strategy) == second.plan(strategy),
{
}

} // verus!
