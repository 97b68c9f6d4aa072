//! The identifier of an indexed circuit: 32 bytes, written as 64 lowercase
//! hex digits, and read from the second `_`-separated part of a witness label.
use vstd::prelude::*;
use vstd::slice::slice_subrange;
use vstd::string::StringSliceAdditionalSpecFns;
use hex::FromHex;

verus! {

/// Why hex digits could not be decoded into 32 bytes.
#[derive(Clone, Copy, Debug, PartialEq, Eq, Structural)]
pub enum HexError {
    /// The byte at `index` is not a hex digit; `c` is that byte as a character.
    InvalidHexCharacter { c: char, index: usize },
    /// The number of digits is odd.
    OddLength,
    /// The digits do not write exactly 32 bytes.
    InvalidStringLength,
}

/// Why a witness label does not name a circuit.
#[derive(Clone, Copy, Debug, PartialEq, Eq, Structural)]
pub enum CircuitIdError {
    /// The label has no `_`, so no second part.
    MissingPart,
    /// The second part is not 64 hex digits.
    Hex(HexError),
}

/// The value of a hex digit, upper or lower case.
pub open spec fn hex_digit(c: u8) -> Option<u8> {
    if 48 <= c <= 57 {
        Some((c - 48) as u8)
    } else if 65 <= c <= 70 {
        Some((c - 55) as u8)
    } else if 97 <= c <= 102 {
        Some((c - 87) as u8)
    } else {
        None
    }
}

/// The position of the first byte from `i` on that is not a hex digit, or
/// the length where there is none.
pub open spec fn first_non_hex(s: Seq<u8>, i: int) -> int
    decreases s.len() - i,
{
    if i >= s.len() || i < 0 {
        s.len() as int
    } else if hex_digit(s[i]) is None {
        i
    } else {
        first_non_hex(s, i + 1)
    }
}

/// The 32 bytes that 64 hex digits write, two digits a byte, high digit first.
pub open spec fn hex_bytes(s: Seq<u8>) -> Seq<u8> {
    Seq::new(32, |i: int| (hex_digit(s[2 * i])->0 * 16 + hex_digit(s[2 * i + 1])->0) as u8)
}

/// What decoding hex digits into 32 bytes gives.
pub open spec fn from_hex_spec(s: Seq<u8>) -> Result<Seq<u8>, HexError> {
    if s.len() % 2 != 0 {
        Err(HexError::OddLength)
    } else if s.len() / 2 != 32 {
        Err(HexError::InvalidStringLength)
    } else if first_non_hex(s, 0) < s.len() {
        Err(HexError::InvalidHexCharacter { c: s[first_non_hex(s, 0)] as char, index: first_non_hex(s, 0) as usize })
    } else {
        Ok(hex_bytes(s))
    }
}

/// Decodes hex digits into 32 bytes with `<[u8; 32] as hex::FromHex>::from_hex`.
/// The contract states what the crate's source does: an odd number of
/// digits, then a number other than 64, then the first byte that is not a
/// digit (`0-9`, `a-f`, `A-F`) is refused; otherwise each byte is the value of
/// its two digits, high digit first.
#[verifier::external_body]
fn decode_hex_32(digits: &[u8]) -> (r: Result<[u8; 32], HexError>)
    ensures
        match r {
            Ok(bytes) => from_hex_spec(digits@) == Ok::<Seq<u8>, HexError>(bytes@),
            Err(e) => from_hex_spec(digits@) == Err::<Seq<u8>, HexError>(e),
        },
{
    match <[u8; 32]>::from_hex(digits) {
        Ok(bytes) => Ok(bytes),
        Err(hex::FromHexError::InvalidHexCharacter { c, index }) => Err(HexError::InvalidHexCharacter { c, index }),
        Err(hex::FromHexError::OddLength) => Err(HexError::OddLength),
        Err(hex::FromHexError::InvalidStringLength) => Err(HexError::InvalidStringLength),
    }
}

/// The characters of ASCII bytes.
pub open spec fn ascii_chars(bytes: Seq<u8>) -> Seq<char> {
    bytes.map_values(|b: u8| b as char)
}

/// Turns ASCII bytes into a string with `String::from_utf8`, whose
/// documentation says that it keeps the bytes; ASCII bytes are valid UTF-8,
/// one character each.
#[verifier::external_body]
fn ascii_string(bytes: Vec<u8>) -> (s: String)
    requires
        forall|i: int| 0 <= i < bytes@.len() ==> #[trigger] bytes@[i] < 128,
    ensures
        s@ == ascii_chars(bytes@),
{
    match String::from_utf8(bytes) {
        Ok(s) => s,
        Err(_) => String::new(),
    }
}

/// The position of the first `_` from `i` on, or the length where there is none.
pub open spec fn next_underscore(s: Seq<u8>, i: int) -> int
    decreases s.len() - i,
{
    if i >= s.len() || i < 0 {
        s.len() as int
    } else if s[i] == 95 {
        i
    } else {
        next_underscore(s, i + 1)
    }
}

/// The second `_`-separated part of a label: the bytes between its first
/// `_` and the next one (or the end); `None` where it has no `_`.
pub open spec fn second_part(s: Seq<u8>) -> Option<Seq<u8>> {
    let a = next_underscore(s, 0);
    if a >= s.len() {
        None
    } else {
        Some(s.subrange(a + 1, next_underscore(s, a + 1)))
    }
}

/// The lowercase hex digit of a value below 16.
pub open spec fn lower_hex_digit(v: u8) -> u8 {
    if v < 10 {
        (v + 48) as u8
    } else {
        (v + 87) as u8
    }
}

/// The lowercase hex digits of bytes, two a byte, high digit first.
pub open spec fn lower_hex(bytes: Seq<u8>) -> Seq<u8> {
    Seq::new(2 * bytes.len(), |i: int| if i % 2 == 0 {
        lower_hex_digit(bytes[i / 2] / 16)
    } else {
        lower_hex_digit(bytes[i / 2] % 16)
    })
}

/// Finds the first `_` at or after `start`.
fn find_underscore(s: &[u8], start: usize) -> (r: usize)
    requires
        start <= s@.len(),
    ensures
        r == next_underscore(s@, start as int),
        start <= r <= s@.len(),
{
    let mut i = start;
    while i < s.len()
        invariant
            start <= i <= s@.len(),
            next_underscore(s@, start as int) == next_underscore(s@, i as int),
        decreases s@.len() - i,
    {
        if s[i] == 95 {
            return i;
        }
        i = i + 1;
    }
    i
}

/// The identifier of an indexed circuit.
pub struct CircuitId(pub [u8; 32]);

impl CircuitId {
    /// Reads the identifier from the second `_`-separated part of a witness
    /// label, which holds its 64 hex digits.
    pub fn try_from_witness_label(witness_label: &str) -> (r: Result<CircuitId, CircuitIdError>)
        ensures
            match second_part(witness_label.spec_bytes()) {
                None => r == Err::<CircuitId, CircuitIdError>(CircuitIdError::MissingPart),
                Some(part) => match from_hex_spec(part) {
                    Ok(bytes) => r matches Ok(id) && id.0@ == bytes,
                    Err(e) => r == Err::<CircuitId, CircuitIdError>(CircuitIdError::Hex(e)),
                },
            },
    {
        let bytes = witness_label.as_bytes();
        let a = find_underscore(bytes, 0);
        if a >= bytes.len() {
            return Err(CircuitIdError::MissingPart);
        }
        let b = find_underscore(bytes, a + 1);
        let part = slice_subrange(bytes, a + 1, b);
        match decode_hex_32(part) {
            Ok(id) => Ok(CircuitId(id)),
            Err(e) => Err(CircuitIdError::Hex(e)),
        }
    }

    /// Reads the identifier from a witness label whose second `_`-separated
    /// part is 64 hex digits.
    pub fn from_witness_label(witness_label: &str) -> (r: CircuitId)
        requires
            second_part(witness_label.spec_bytes()) matches Some(part) && from_hex_spec(part) is Ok,
        ensures
            second_part(witness_label.spec_bytes()) matches Some(part) && from_hex_spec(part) == Ok::<Seq<u8>, HexError>(
                r.0@,
            ),
    {
        match CircuitId::try_from_witness_label(witness_label) {
            Ok(id) => id,
            Err(_) => CircuitId([0u8; 32]),
        }
    }

    /// Returns the identifier as 64 lowercase hex digits.
    pub fn to_hex_string(&self) -> (s: String)
        ensures
            s@ == ascii_chars(lower_hex(self.0@)),
    {
        let mut digits: Vec<u8> = Vec::new();
        let mut i: usize = 0;
        while i < 32
            invariant
                i <= 32,
                self.0@.len() == 32,
                digits@ =~= lower_hex(self.0@).subrange(0, 2 * i as int),
                forall|j: int| 0 <= j < digits@.len() ==> #[trigger] digits@[j] < 128,
            decreases 32 - i,
        {
            let byte = self.0[i];
            let hi = byte / 16;
            let lo = byte % 16;
            let h = if hi < 10 { hi + 48 } else { hi + 87 };
            let l = if lo < 10 { lo + 48 } else { lo + 87 };
            digits.push(h);
            digits.push(l);
            proof {
                assert(self.0@[i as int] == byte);
                assert(lower_hex(self.0@)[2 * i as int] == h);
                assert(lower_hex(self.0@)[2 * i + 1] == l);
            }
            i = i + 1;
        }
        ascii_string(digits)
    }
}

} // verus!

verus! {

/// Every position from `i` on holds a hex digit, so none is found.
proof fn lemma_first_non_hex_none(s: Seq<u8>, i: int)
    requires
        0 <= i <= s.len(),
        forall|j: int| i <= j < s.len() ==> #[trigger] hex_digit(s[j]) is Some,
    ensures
        first_non_hex(s, i) == s.len(),
    decreases s.len() - i,
{
    if i < s.len() {
        lemma_first_non_hex_none(s, i + 1);
    }
}

/// Decoding the lowercase hex digits of 32 bytes gives back the bytes.
pub proof fn lemma_hex_round_trip(bytes: Seq<u8>)
    requires
        bytes.len() == 32,
    ensures
        from_hex_spec(lower_hex(bytes)) == Ok::<Seq<u8>, HexError>(bytes),
{
    let s = lower_hex(bytes);
    assert forall|j: int| 0 <= j < s.len() implies #[trigger] hex_digit(s[j]) is Some && hex_digit(s[j])->0 == (
        if j % 2 == 0 {
            bytes[j / 2] / 16
        } else {
            bytes[j / 2] % 16
        }) by {
        let v: u8 = if j % 2 == 0 { bytes[j / 2] / 16 } else { bytes[j / 2] % 16 };
        assert(v < 16);
        assert(s[j] == lower_hex_digit(v));
    }
    lemma_first_non_hex_none(s, 0);
    assert forall|i: int| 0 <= i < 32 implies #[trigger] hex_bytes(s)[i] == bytes[i] by {
        assert(hex_digit(s[2 * i])->0 == bytes[i] / 16);
        assert(hex_digit(s[2 * i + 1])->0 == bytes[i] % 16);
    }
    assert(hex_bytes(s) =~= bytes);
}

} // verus!

verus! {

/// The first `_` from `i` on is at `k` when no byte from `i` before `k` is
/// one; there is none (the length) when no byte from `i` on is one.
proof fn lemma_next_underscore_at(s: Seq<u8>, i: int, k: int)
    requires
        0 <= i <= k <= s.len(),
        forall|j: int| i <= j < k ==> s[j] != 95,
        k < s.len() ==> s[k] == 95,
    ensures
        next_underscore(s, i) == k,
    decreases k - i,
{
    if i < k {
        lemma_next_underscore_at(s, i + 1, k);
    }
}

/// The second part of a label is what lies between its first `_` and the
/// next one (or the end): for a first part `p` and a part `q`, neither with a
/// `_`, the label `p_q` and every label `p_q_…` have `q` as second part, so
/// appending `_` and further parts never changes it; a label with no `_` has
/// none.
pub proof fn lemma_second_part_between_underscores(p: Seq<u8>, q: Seq<u8>, rest: Seq<u8>)
    requires
        forall|j: int| 0 <= j < p.len() ==> p[j] != 95,
        forall|j: int| 0 <= j < q.len() ==> q[j] != 95,
    ensures
        second_part(p + seq![95u8] + q) == Some(q),
        second_part(p + seq![95u8] + q + seq![95u8] + rest) == Some(q),
        second_part(p) is None,
{
    let s1 = p + seq![95u8] + q;
    let s2 = p + seq![95u8] + q + seq![95u8] + rest;
    let a = p.len() as int;
    lemma_next_underscore_at(p, 0, p.len() as int);
    lemma_next_underscore_at(s1, 0, a);
    lemma_next_underscore_at(s1, a + 1, s1.len() as int);
    assert(s1.subrange(a + 1, s1.len() as int) =~= q);
    let e = a + 1 + q.len();
    lemma_next_underscore_at(s2, 0, a);
    lemma_next_underscore_at(s2, a + 1, e);
    assert(s2.subrange(a + 1, e) =~= q);
}

} // verus!
