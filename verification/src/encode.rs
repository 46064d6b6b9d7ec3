//! Symbol encoding: how a candidate string becomes the fixed-length sequence
//! of symbols that the circuit binds to its columns.
//!
//! Two policies exist. `Encoding::Segments` reads the string as four
//! dot-separated decimal numbers, each an unsigned 8-bit value.
//! `Encoding::Bytes` takes the UTF-8 bytes of the string as they are, one per
//! column, and fills the unused columns with zero.
use vstd::prelude::*;
use vstd::std_specs::iter::IteratorSpec;
use vstd::string::StringSliceAdditionalSpecFns;
use vstd::utf8::encode_utf8;

verus! {

/// Number of symbols of the segment policy.
pub const SEGMENT_COUNT: usize = 4;

/// Number of symbols of the byte-per-column policy.
pub const COLUMN_COUNT: usize = 15;

/// How the input string is turned into symbols.
#[derive(Clone, Copy, Debug, PartialEq, Eq, Structural)]
pub enum Encoding {
    /// Four dot-separated decimal segments, one symbol per segment.
    Segments,
    /// One symbol per byte of the string, zero-padded to `COLUMN_COUNT`.
    Bytes,
}

/// Why a string has no encoding.
#[derive(Clone, Copy, Debug, PartialEq, Eq, Structural)]
pub enum EncodeError {
    /// Wrong number of segments, a segment that is no unsigned 8-bit decimal
    /// number, or more bytes than there are columns.
    MalformedInput,
}

/// `c` is one of the ten decimal digits.
pub open spec fn is_digit(c: char) -> bool {
    '0' <= c && c <= '9'
}

/// The number a decimal digit stands for.
pub open spec fn digit_value(c: char) -> nat {
    (c as u32 - '0' as u32) as nat
}

/// Every character of `s` is a decimal digit.
pub open spec fn all_digits(s: Seq<char>) -> bool {
    forall|i: int| 0 <= i < s.len() ==> is_digit(#[trigger] s[i])
}

/// The number that a string of decimal digits denotes; zero for the empty string.
pub open spec fn decimal_value(digits: Seq<char>) -> nat
    decreases digits.len(),
{
    if digits.len() == 0 {
        0
    } else {
        decimal_value(digits.drop_last()) * 10 + digit_value(digits.last())
    }
}

/// `s` without a leading plus sign, if it has one.
pub open spec fn unsigned_part(s: Seq<char>) -> Seq<char> {
    if s.len() > 0 && s[0] == '+' {
        s.subrange(1, s.len() as int)
    } else {
        s
    }
}

/// The unsigned 8-bit number written in `s`: an optional plus sign, then one
/// or more decimal digits whose value is at most 255. Leading zeros count as
/// digits. Anything else is no number.
pub open spec fn parse_u8(s: Seq<char>) -> Option<u8> {
    let digits = unsigned_part(s);
    if digits.len() > 0 && all_digits(digits) && decimal_value(digits) <= 255 {
        Some(decimal_value(digits) as u8)
    } else {
        None
    }
}

/// The pieces of `s` between its dots, in order. A string without a dot is
/// its own single piece; a dot at either end, or two dots in a row, give an
/// empty piece.
pub open spec fn split_on_dot(s: Seq<char>) -> Seq<Seq<char>>
    decreases s.len(),
{
    if s.len() == 0 {
        seq![Seq::<char>::empty()]
    } else {
        let before = split_on_dot(s.drop_last());
        if s.last() == '.' {
            before.push(Seq::<char>::empty())
        } else {
            before.update(before.len() - 1, before.last().push(s.last()))
        }
    }
}

/// The symbols of `s` under the segment policy, if it has any.
pub open spec fn segment_symbols(s: Seq<char>) -> Option<Seq<u8>> {
    let parts = split_on_dot(s);
    if parts.len() == SEGMENT_COUNT && (forall|k: int|
        0 <= k < parts.len() ==> (#[trigger] parse_u8(parts[k])) is Some) {
        Some(Seq::new(SEGMENT_COUNT as nat, |k: int| parse_u8(parts[k]).unwrap()))
    } else {
        None
    }
}

/// The symbols of a byte string under the byte-per-column policy, if it has any.
pub open spec fn byte_symbols(bytes: Seq<u8>) -> Option<Seq<u8>> {
    if bytes.len() <= COLUMN_COUNT {
        Some(
            Seq::new(
                COLUMN_COUNT as nat,
                |k: int|
                    if k < bytes.len() {
                        bytes[k]
                    } else {
                        0u8
                    },
            ),
        )
    } else {
        None
    }
}

/// The symbols of the string `input` under `encoding`, if it has any. The
/// byte policy reads the UTF-8 encoding of the string.
pub open spec fn encode_spec(encoding: Encoding, input: Seq<char>) -> Option<Seq<u8>> {
    match encoding {
        Encoding::Segments => segment_symbols(input),
        Encoding::Bytes => byte_symbols(encode_utf8(input)),
    }
}

/// How many symbols every encoding under `encoding` has.
pub open spec fn symbol_count(encoding: Encoding) -> nat {
    match encoding {
        Encoding::Segments => SEGMENT_COUNT as nat,
        Encoding::Bytes => COLUMN_COUNT as nat,
    }
}

/// The symbols that the circuit accepts: the address 127.0.0.1, as four
/// segment values or as the bytes of its text followed by zeros.
pub open spec fn expected_symbols(encoding: Encoding) -> Seq<u8> {
    match encoding {
        Encoding::Segments => seq![127u8, 0u8, 0u8, 1u8],
        Encoding::Bytes => seq![
            49u8, 50u8, 55u8, 46u8, 48u8, 46u8, 48u8, 46u8, 49u8, 0u8, 0u8, 0u8, 0u8, 0u8, 0u8,
        ],
    }
}

/// The text of the one address that the circuit accepts.
pub open spec fn target_text() -> Seq<char> {
    seq!['1', '2', '7', '.', '0', '.', '0', '.', '1']
}

/// An encoding always has exactly `symbol_count` symbols, and so has the
/// expected value.
pub proof fn lemma_symbol_count(encoding: Encoding, input: Seq<char>)
    ensures
        expected_symbols(encoding).len() == symbol_count(encoding),
        encode_spec(encoding, input) is Some ==> encode_spec(encoding, input).unwrap().len()
            == symbol_count(encoding),
{
}

/// The value of a digit string is at least the value of each of its prefixes.
proof fn lemma_prefix_value(digits: Seq<char>, k: int)
    requires
        0 <= k <= digits.len(),
    ensures
        decimal_value(digits.subrange(0, k)) <= decimal_value(digits),
    decreases digits.len() - k,
{
    if k == digits.len() {
        assert(digits.subrange(0, k) =~= digits);
    } else {
        lemma_prefix_value(digits, k + 1);
        let longer = digits.subrange(0, k + 1);
        assert(longer.drop_last() =~= digits.subrange(0, k));
    }
}

/// All characters of a string, in order.
pub fn collect_chars(input: &str) -> (chars: Vec<char>)
    ensures
        chars@ == input@,
{
    broadcast use vstd::string::group_string_axioms;

    let mut chars: Vec<char> = Vec::new();
    let mut rest = input.chars();
    loop
        invariant
            chars@.len() <= input@.len(),
            chars@ == input@.subrange(0, chars@.len() as int),
            rest.remaining() == input@.subrange(chars@.len() as int, input@.len() as int),
            rest.obeys_prophetic_iter_laws(),
        decreases input@.len() - chars@.len(),
    {
        match rest.next() {
            None => {
                assert(chars@ =~= input@);
                return chars;
            },
            Some(c) => {
                let ghost at = chars@.len() as int;
                assert(c == input@[at]);
                chars.push(c);
                assert(chars@ =~= input@.subrange(0, at + 1));
                assert(rest.remaining() =~= input@.subrange(at + 1, input@.len() as int));
            },
        }
    }
}

/// Reads the characters `chars[from..to]` as an unsigned 8-bit decimal number.
pub fn parse_segment(chars: &Vec<char>, from: usize, to: usize) -> (value: Option<u8>)
    requires
        from <= to <= chars.len(),
    ensures
        value == parse_u8(chars@.subrange(from as int, to as int)),
{
    let ghost segment = chars@.subrange(from as int, to as int);
    let first: usize = if from < to && chars[from] == '+' {
        from + 1
    } else {
        from
    };
    let ghost digits = unsigned_part(segment);
    assert(digits =~= chars@.subrange(first as int, to as int));
    if first == to {
        return None;
    }
    let mut acc: u16 = 0;
    let mut i: usize = first;
    while i < to
        invariant
            first <= i <= to <= chars.len(),
            digits == chars@.subrange(first as int, to as int),
            digits == unsigned_part(chars@.subrange(from as int, to as int)),
            all_digits(digits.subrange(0, i - first)),
            acc == decimal_value(digits.subrange(0, i - first)),
            acc <= 255,
        decreases to - i,
    {
        let c = chars[i];
        assert(c == digits[i - first]);
        if !('0' <= c && c <= '9') {
            assert(!is_digit(digits[i - first]));
            return None;
        }
        let d: u16 = (c as u32 - '0' as u32) as u16;
        let next: u16 = acc * 10 + d;
        proof {
            let longer = digits.subrange(0, i - first + 1);
            assert(longer.drop_last() =~= digits.subrange(0, i - first));
            assert(longer.last() == c);
            assert(decimal_value(longer) == next);
            assert forall|j: int| 0 <= j < longer.len() implies is_digit(#[trigger] longer[j]) by {
                if j < i - first {
                    assert(digits.subrange(0, i - first)[j] == longer[j]);
                }
            }
        }
        if next > 255 {
            proof {
                lemma_prefix_value(digits, i - first + 1);
            }
            return None;
        }
        acc = next;
        i = i + 1;
    }
    assert(digits.subrange(0, i - first) =~= digits);
    Some(acc as u8)
}

/// The bounds of the dot-separated pieces of `chars`: piece `k` is
/// `chars[bounds[k].0 .. bounds[k].1]`.
pub fn split_bounds(chars: &Vec<char>) -> (bounds: Vec<(usize, usize)>)
    ensures
        bounds@.len() == split_on_dot(chars@).len(),
        forall|k: int|
            0 <= k < bounds@.len() ==> {
                &&& (#[trigger] bounds@[k]).0 <= bounds@[k].1 <= chars@.len()
                &&& split_on_dot(chars@)[k] == chars@.subrange(
                    bounds@[k].0 as int,
                    bounds@[k].1 as int,
                )
            },
{
    let mut bounds: Vec<(usize, usize)> = Vec::new();
    let mut start: usize = 0;
    let mut i: usize = 0;
    assert(chars@.subrange(0, 0) =~= Seq::<char>::empty());
    assert(chars@.subrange(0, 0).len() == 0);
    while i < chars.len()
        invariant
            start <= i <= chars.len(),
            split_on_dot(chars@.subrange(0, i as int)).len() == bounds@.len() + 1,
            split_on_dot(chars@.subrange(0, i as int)).last() == chars@.subrange(
                start as int,
                i as int,
            ),
            forall|k: int|
                0 <= k < bounds@.len() ==> {
                    &&& (#[trigger] bounds@[k]).0 <= bounds@[k].1 <= chars@.len()
                    &&& split_on_dot(chars@.subrange(0, i as int))[k] == chars@.subrange(
                        bounds@[k].0 as int,
                        bounds@[k].1 as int,
                    )
                },
        decreases chars.len() - i,
    {
        let ghost before = split_on_dot(chars@.subrange(0, i as int));
        let ghost longer = chars@.subrange(0, i + 1);
        assert(longer.drop_last() =~= chars@.subrange(0, i as int));
        assert(longer.last() == chars@[i as int]);
        if chars[i] == '.' {
            bounds.push((start, i));
            start = i + 1;
            assert(split_on_dot(longer) == before.push(Seq::<char>::empty()));
            assert(chars@.subrange(start as int, start as int) =~= Seq::<char>::empty());
        } else {
            assert(split_on_dot(longer) == before.update(
                before.len() - 1,
                before.last().push(chars@[i as int]),
            ));
            assert(chars@.subrange(start as int, i as int).push(chars@[i as int])
                =~= chars@.subrange(start as int, i + 1));
        }
        i = i + 1;
    }
    assert(chars@.subrange(0, i as int) =~= chars@);
    bounds.push((start, i));
    bounds
}

/// Encodes `input` as four segment values.
pub fn encode_segments(input: &str) -> (symbols: Result<Vec<u8>, EncodeError>)
    ensures
        match symbols {
            Ok(v) => segment_symbols(input@) == Some(v@),
            Err(e) => segment_symbols(input@) is None && e == EncodeError::MalformedInput,
        },
{
    let chars = collect_chars(input);
    let bounds = split_bounds(&chars);
    if bounds.len() != SEGMENT_COUNT {
        return Err(EncodeError::MalformedInput);
    }
    let ghost parts = split_on_dot(input@);
    let mut symbols: Vec<u8> = Vec::new();
    let mut k: usize = 0;
    while k < SEGMENT_COUNT
        invariant
            k <= SEGMENT_COUNT,
            chars@ == input@,
            parts == split_on_dot(input@),
            bounds@.len() == SEGMENT_COUNT,
            parts.len() == SEGMENT_COUNT,
            forall|j: int|
                0 <= j < bounds@.len() ==> {
                    &&& (#[trigger] bounds@[j]).0 <= bounds@[j].1 <= chars@.len()
                    &&& parts[j] == chars@.subrange(bounds@[j].0 as int, bounds@[j].1 as int)
                },
            symbols@.len() == k,
            forall|j: int| 0 <= j < k ==> parse_u8(parts[j]) == Some(#[trigger] symbols@[j]),
        decreases SEGMENT_COUNT - k,
    {
        let (from, to) = bounds[k];
        assert(bounds@[k as int].0 == from && bounds@[k as int].1 == to);
        match parse_segment(&chars, from, to) {
            None => {
                assert(parse_u8(parts[k as int]) is None);
                return Err(EncodeError::MalformedInput);
            },
            Some(value) => {
                symbols.push(value);
            },
        }
        k = k + 1;
    }
    assert forall|j: int| 0 <= j < parts.len() implies (#[trigger] parse_u8(parts[j])) is Some by {
        assert(parse_u8(parts[j]) == Some(symbols@[j]));
    }
    assert(symbols@ =~= segment_symbols(input@).unwrap());
    Ok(symbols)
}

/// Encodes `input` as its bytes, one per column, followed by zeros.
pub fn encode_bytes(input: &str) -> (symbols: Result<Vec<u8>, EncodeError>)
    ensures
        match symbols {
            Ok(v) => byte_symbols(input.spec_bytes()) == Some(v@),
            Err(e) => byte_symbols(input.spec_bytes()) is None && e == EncodeError::MalformedInput,
        },
{
    let bytes = input.as_bytes();
    if bytes.len() > COLUMN_COUNT {
        return Err(EncodeError::MalformedInput);
    }
    let mut symbols: Vec<u8> = Vec::new();
    let mut k: usize = 0;
    while k < COLUMN_COUNT
        invariant
            k <= COLUMN_COUNT,
            bytes@ == input.spec_bytes(),
            bytes@.len() <= COLUMN_COUNT,
            symbols@.len() == k,
            forall|j: int|
                0 <= j < k ==> #[trigger] symbols@[j] == (if j < bytes@.len() {
                    bytes@[j]
                } else {
                    0u8
                }),
        decreases COLUMN_COUNT - k,
    {
        let symbol: u8 = if k < bytes.len() {
            bytes[k]
        } else {
            0
        };
        symbols.push(symbol);
        k = k + 1;
    }
    assert(symbols@ =~= byte_symbols(input.spec_bytes()).unwrap());
    Ok(symbols)
}

/// The Symbol Encoder: the symbols of `input` under `encoding`, or
/// `MalformedInput` where it has none.
pub fn encode(encoding: Encoding, input: &str) -> (symbols: Result<Vec<u8>, EncodeError>)
    ensures
        match symbols {
            Ok(v) => encode_spec(encoding, input@) == Some(v@),
            Err(e) => encode_spec(encoding, input@) is None && e == EncodeError::MalformedInput,
        },
{
    match encoding {
        Encoding::Segments => encode_segments(input),
        Encoding::Bytes => encode_bytes(input),
    }
}

/// The characters of the one address that the circuit accepts.
pub fn target_chars() -> (chars: Vec<char>)
    ensures
        chars@ == target_text(),
{
    let chars: Vec<char> = vec!['1', '2', '7', '.', '0', '.', '0', '.', '1'];
    assert(chars@ =~= target_text());
    chars
}

/// The symbols that the circuit accepts under `encoding`.
pub fn expected(encoding: Encoding) -> (symbols: Vec<u8>)
    ensures
        symbols@ == expected_symbols(encoding),
{
    let symbols: Vec<u8> = match encoding {
        Encoding::Segments => vec![127u8, 0u8, 0u8, 1u8],
        Encoding::Bytes => vec![
            49u8, 50u8, 55u8, 46u8, 48u8, 46u8, 48u8, 46u8, 49u8, 0u8, 0u8, 0u8, 0u8, 0u8, 0u8,
        ],
    };
    assert(symbols@ =~= expected_symbols(encoding));
    symbols
}

} // verus!
