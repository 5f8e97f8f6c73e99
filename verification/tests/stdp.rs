use analysis::parser::stdp::{Byte, I32, U32};
use analysis::parser::traits::Parser;

#[test]
fn test_u32() {
    assert_eq!(U32.parse("411".into()), Ok(("".into(), 411)));
    assert_eq!(U32.parse("411ab".into()), Ok(("ab".into(), 411)));
    assert_eq!(U32.parse("".into()), Err(()));
    assert_eq!(U32.parse("-3".into()), Err(()));
    assert_eq!(U32.parse("0x03".into()), Ok(("".into(), 0x3)));
    assert_eq!(U32.parse("0x03abg".into()), Ok(("g".into(), 0x3ab)));
    assert_eq!(U32.parse("0x".into()), Err(()));
}

#[test]
fn test_i32() {
    assert_eq!(I32.parse("411".into()), Ok(("".into(), 411)));
    assert_eq!(I32.parse("411ab".into()), Ok(("ab".into(), 411)));
    assert_eq!(I32.parse("".into()), Err(()));
    assert_eq!(I32.parse("-3".into()), Ok(("".into(), -3)));
    assert_eq!(I32.parse("0x03".into()), Err(()));
    assert_eq!(I32.parse("-".into()), Err(()));
}

#[test]
fn byte_reads_two_hex_digits() {
    assert_eq!(Byte.parse("ff00".into()), Ok(("00".into(), 255)));
    assert_eq!(Byte.parse("a".into()), Err(()));
}
