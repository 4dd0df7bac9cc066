use gear_test::sample::memory::{parse_address, parse_bytes, HexError, IntErrorKind};

#[test]
fn addresses() {
    assert_eq!(parse_address("0x10"), Ok(16));
    assert_eq!(parse_address("10"), Ok(16));
    assert_eq!(parse_address("0x0xfF"), Ok(255));
    assert_eq!(parse_address("+a"), Ok(10));
    assert_eq!(parse_address(""), Err(IntErrorKind::Empty));
    assert_eq!(parse_address("0x"), Err(IntErrorKind::Empty));
    assert_eq!(parse_address("+"), Err(IntErrorKind::InvalidDigit));
    assert_eq!(parse_address("-"), Err(IntErrorKind::InvalidDigit));
    assert_eq!(parse_address("-1"), Err(IntErrorKind::InvalidDigit));
    assert_eq!(parse_address("0x1g"), Err(IntErrorKind::InvalidDigit));
    assert_eq!(parse_address("0X10"), Err(IntErrorKind::InvalidDigit));
    let too_big = format!("1{}", "0".repeat(2 * std::mem::size_of::<usize>()));
    assert_eq!(parse_address(&too_big), Err(IntErrorKind::PosOverflow));
    let max = "f".repeat(2 * std::mem::size_of::<usize>());
    assert_eq!(parse_address(&max), Ok(usize::MAX));
    for s in ["0x10", "0", "+0", "ffff", "0x0x7", "zz", "", "+"] {
        let std_result = usize::from_str_radix(s.trim_start_matches("0x"), 16).ok();
        assert_eq!(parse_address(s).ok(), std_result);
    }
}

#[test]
fn bytes() {
    assert_eq!(parse_bytes("0xdeadBEEF"), Ok(vec![0xde, 0xad, 0xbe, 0xef]));
    assert_eq!(parse_bytes(""), Ok(vec![]));
    assert_eq!(parse_bytes("0x"), Ok(vec![]));
    assert_eq!(parse_bytes("0x0x01"), Ok(vec![1]));
    assert_eq!(parse_bytes("abc"), Err(HexError::OddLength));
    assert_eq!(parse_bytes("0xzz"), Err(HexError::InvalidHexCharacter { c: 'z', index: 0 }));
    assert_eq!(parse_bytes("00g0"), Err(HexError::InvalidHexCharacter { c: 'g', index: 2 }));
}
