//! The circuit instance: a candidate string and the policy by which it is
//! encoded.
use crate::encode::{encode_spec, is_digit, Encoding};
use vstd::prelude::*;
use vstd::std_specs::iter::IteratorSpec;
use vstd::string::StringExecFns;
use vstd::utf8::is_ascii_chars;

verus! {

/// Why a string was refused at construction.
#[derive(Clone, Copy, Debug, PartialEq, Eq, Structural)]
pub enum ConstructionError {
    /// The string holds a character that its policy does not admit.
    InvalidFormat,
}

impl ConstructionError {
    /// The text of this error.
    pub fn message(&self) -> (text: String)
        ensures
            text@ == "Invalid IP format"@,
    {
        String::from_str("Invalid IP format")
    }
}

/// `c` may occur in a dotted address: a decimal digit or a dot.
pub open spec fn is_address_char(c: char) -> bool {
    is_digit(c) || c == '.'
}

/// Every character of `s` is a decimal digit or a dot.
pub open spec fn is_address_text(s: Seq<char>) -> bool {
    forall|i: int| 0 <= i < s.len() ==> is_address_char(#[trigger] s[i])
}

/// Whether `input` may be given to a circuit that encodes by `encoding`:
/// digits and dots only for the segment policy, ASCII for the byte policy.
pub open spec fn admissible(encoding: Encoding, input: Seq<char>) -> bool {
    match encoding {
        Encoding::Segments => is_address_text(input),
        Encoding::Bytes => is_ascii_chars(input),
    }
}

/// Whether every character of `input` is a decimal digit or a dot.
pub fn check_address_text(input: &str) -> (ok: bool)
    ensures
        ok == is_address_text(input@),
{
    broadcast use vstd::string::group_string_axioms;

    let mut rest = input.chars();
    let ghost mut seen: int = 0;
    loop
        invariant
            0 <= seen <= input@.len(),
            rest.remaining() == input@.subrange(seen, input@.len() as int),
            rest.obeys_prophetic_iter_laws(),
            forall|i: int| 0 <= i < seen ==> is_address_char(#[trigger] input@[i]),
        decreases input@.len() - seen,
    {
        match rest.next() {
            None => {
                return true;
            },
            Some(c) => {
                assert(c == input@[seen]);
                if !(('0' <= c && c <= '9') || c == '.') {
                    return false;
                }
                proof {
                    assert(rest.remaining() =~= input@.subrange(seen + 1, input@.len() as int));
                    seen = seen + 1;
                }
            },
        }
    }
}

/// A candidate address together with the policy by which it is encoded.
#[derive(Clone, Debug)]
pub struct IPCheckCircuit {
    ip_string: String,
    encoding: Encoding,
}

impl IPCheckCircuit {
    /// The candidate string.
    pub closed spec fn input(&self) -> Seq<char> {
        self.ip_string@
    }

    /// The encoding policy.
    pub closed spec fn policy(&self) -> Encoding {
        self.encoding
    }

    /// The symbols of the candidate string, if it has any.
    pub open spec fn symbols(&self) -> Option<Seq<u8>> {
        encode_spec(self.policy(), self.input())
    }

    /// A circuit for `ip_string` under the segment policy. The string is
    /// refused if and only if it holds a character other than a decimal digit
    /// or a dot.
    pub fn new(ip_string: String) -> (made: Result<IPCheckCircuit, ConstructionError>)
        ensures
            match made {
                Ok(circuit) => {
                    &&& is_address_text(ip_string@)
                    &&& circuit.input() == ip_string@
                    &&& circuit.policy() == Encoding::Segments
                },
                Err(e) => !is_address_text(ip_string@) && e == ConstructionError::InvalidFormat,
            },
    {
        IPCheckCircuit::with_encoding(ip_string, Encoding::Segments)
    }

    /// A circuit for `ip_string` under `encoding`. The string is refused if
    /// and only if it is not admissible under that policy.
    pub fn with_encoding(ip_string: String, encoding: Encoding) -> (made: Result<
        IPCheckCircuit,
        ConstructionError,
    >)
        ensures
            match made {
                Ok(circuit) => {
                    &&& admissible(encoding, ip_string@)
                    &&& circuit.input() == ip_string@
                    &&& circuit.policy() == encoding
                },
                Err(e) => !admissible(encoding, ip_string@) && e
                    == ConstructionError::InvalidFormat,
            },
    {
        let ok = match encoding {
            Encoding::Segments => check_address_text(ip_string.as_str()),
            Encoding::Bytes => ip_string.as_str().is_ascii(),
        };
        if ok {
            Ok(IPCheckCircuit { ip_string, encoding })
        } else {
            Err(ConstructionError::InvalidFormat)
        }
    }

    /// The candidate string.
    pub fn ip_string(&self) -> (text: &str)
        ensures
            text@ == self.input(),
    {
        self.ip_string.as_str()
    }

    /// The encoding policy.
    pub fn encoding(&self) -> (encoding: Encoding)
        ensures
            encoding == self.policy(),
    {
        self.encoding
    }

    /// The circuit of the same shape with no witness: its candidate string is
    /// empty, its policy that of `self`.
    pub fn without_witnesses(&self) -> (blank: IPCheckCircuit)
        ensures
            blank.input() == Seq::<char>::empty(),
            blank.policy() == self.policy(),
    {
        let blank = IPCheckCircuit { ip_string: String::from_str(""), encoding: self.encoding };
        proof {
            reveal_strlit("");
            assert(blank.ip_string@ =~= Seq::<char>::empty());
        }
        blank
    }
}

} // verus!
