use bigdecimal::hex::{decode_hex, encode_hex};
use bigdecimal::util::prepare_output;
use bigdecimal::OutputCStrError;

#[test]
fn test_decode_hex() {
    assert_eq!(decode_hex(""), [].to_vec());
    assert_eq!(decode_hex("00"), [0x00u8].to_vec());
    assert_eq!(decode_hex("ff"), [0xffu8].to_vec());
    assert_eq!(decode_hex("AB"), [0xabu8].to_vec());
    assert_eq!(decode_hex("fa 19"), [0xfau8, 0x19].to_vec());
}

#[test]
fn test_encode_hex() {
    assert_eq!("".to_string(), encode_hex(&[]));
    assert_eq!("00".to_string(), encode_hex(&[0x00]));
    assert_eq!("ab".to_string(), encode_hex(&[0xab]));
    assert_eq!("01 a2 1a fe".to_string(), encode_hex(&[0x01, 0xa2, 0x1a, 0xfe]));
}

#[test]
fn test_prepare_output_fits() {
    let r = prepare_output("hello world!", 64);
    assert_eq!(r, Ok(12));
}

#[test]
fn test_prepare_output_insufficient_capacity() {
    let r = prepare_output("hello world!", 10);
    assert_eq!(r, Err(OutputCStrError::CapacityError));
}

#[test]
fn test_prepare_output_interior_nul() {
    let r = prepare_output("hello\0world", 64);
    assert_eq!(r, Err(OutputCStrError::NulError));
}
