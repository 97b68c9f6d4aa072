//! The byte layout of a function.
use snarkvm_verified::function_bytes::{function_bytes, WriteError};

#[test]
fn lays_out_name_and_counted_parts() {
    let name = b"main".to_vec();
    let inputs = vec![vec![1u8, 2], vec![3u8]];
    let instructions = vec![vec![9u8]];
    let outputs: Vec<Vec<u8>> = vec![];
    let bytes = function_bytes(&name, &inputs, &instructions, &outputs, 32, 8).unwrap();
    assert_eq!(
        vec![4, b'm', b'a', b'i', b'n', 2, 0, 0, 0, 1, 2, 3, 1, 0, 0, 0, 9, 0, 0, 0, 0],
        bytes
    );
}

#[test]
fn each_limit_gives_its_error() {
    let none: Vec<Vec<u8>> = vec![];
    let three = vec![vec![0u8], vec![1u8], vec![2u8]];
    assert_eq!(Err(WriteError::NameTooLong(5)), function_bytes(&b"hello".to_vec(), &three, &none, &none, 4, 2));
    assert_eq!(Err(WriteError::TooManyInputs(3)), function_bytes(&b"f".to_vec(), &three, &three, &none, 4, 2));
    assert_eq!(Err(WriteError::TooManyInstructions(3)), function_bytes(&b"f".to_vec(), &none, &three, &three, 4, 2));
    assert_eq!(Err(WriteError::TooManyOutputs(3)), function_bytes(&b"f".to_vec(), &none, &none, &three, 4, 2));
}

#[test]
fn a_count_is_little_endian() {
    let inputs: Vec<Vec<u8>> = (0..300).map(|_| vec![]).collect();
    let none: Vec<Vec<u8>> = vec![];
    let bytes = function_bytes(&vec![], &inputs, &none, &none, 0, 1000).unwrap();
    assert_eq!(vec![0, 44, 1, 0, 0, 0, 0, 0, 0, 0, 0, 0, 0], bytes);
}
