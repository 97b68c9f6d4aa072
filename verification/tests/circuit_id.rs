//! Circuit identifiers read from witness labels and written as hex.
use snarkvm_verified::circuit_id::{CircuitId, CircuitIdError, HexError};

const DIGITS: &str = "00112233445566778899aabbccddeeff0123456789abcdefFEDCBA9876543210";

fn expected() -> [u8; 32] {
    [
        0x00, 0x11, 0x22, 0x33, 0x44, 0x55, 0x66, 0x77, 0x88, 0x99, 0xaa, 0xbb, 0xcc, 0xdd, 0xee, 0xff, 0x01, 0x23,
        0x45, 0x67, 0x89, 0xab, 0xcd, 0xef, 0xfe, 0xdc, 0xba, 0x98, 0x76, 0x54, 0x32, 0x10,
    ]
}

#[test]
fn reads_the_second_part_of_the_label() {
    let label = format!("circuit_{}", DIGITS);
    assert_eq!(expected(), CircuitId::from_witness_label(&label).0);
    let label = format!("w_{}_extra", DIGITS);
    assert_eq!(expected(), CircuitId::from_witness_label(&label).0);
}

#[test]
fn writes_lowercase_hex() {
    let id = CircuitId(expected());
    assert_eq!(DIGITS.to_lowercase(), id.to_hex_string());
    let label = format!("x_{}", id.to_hex_string());
    assert_eq!(expected(), CircuitId::from_witness_label(&label).0);
}

#[test]
fn refused_labels() {
    assert_eq!(Err(CircuitIdError::MissingPart), CircuitId::try_from_witness_label(DIGITS).map(|id| id.0));
    assert_eq!(
        Err(CircuitIdError::Hex(HexError::OddLength)),
        CircuitId::try_from_witness_label("a_abc").map(|id| id.0)
    );
    assert_eq!(
        Err(CircuitIdError::Hex(HexError::InvalidStringLength)),
        CircuitId::try_from_witness_label("a_abcd").map(|id| id.0)
    );
    let mut bad = DIGITS.to_string();
    bad.replace_range(5..6, "g");
    assert_eq!(
        Err(CircuitIdError::Hex(HexError::InvalidHexCharacter { c: 'g', index: 5 })),
        CircuitId::try_from_witness_label(&format!("a_{}", bad)).map(|id| id.0)
    );
}
