use rsz::hex::{deserialize_hex, deserialize_hex_map, HexError};

#[test]
fn reads_hexadecimal_numbers() {
    assert_eq!(deserialize_hex("1A"), Ok(26));
    assert_eq!(deserialize_hex("1a"), Ok(26));
    assert_eq!(deserialize_hex("+ff"), Ok(255));
    assert_eq!(deserialize_hex("0000"), Ok(0));
    assert_eq!(deserialize_hex("ffffffffffffffff"), Ok(usize::MAX));
}

#[test]
fn rejects_malformed_numbers() {
    assert_eq!(deserialize_hex(""), Err(HexError::Empty));
    assert_eq!(deserialize_hex("+"), Err(HexError::InvalidDigit));
    assert_eq!(deserialize_hex("-"), Err(HexError::InvalidDigit));
    assert_eq!(deserialize_hex("-1"), Err(HexError::InvalidDigit));
    assert_eq!(deserialize_hex("1g"), Err(HexError::InvalidDigit));
    assert_eq!(deserialize_hex("é"), Err(HexError::InvalidDigit));
    assert_eq!(deserialize_hex("10000000000000000"), Err(HexError::PosOverflow));
    // The first offending digit decides.
    assert_eq!(deserialize_hex("10000000000000000g"), Err(HexError::PosOverflow));
    assert_eq!(deserialize_hex("g0000000000000000"), Err(HexError::InvalidDigit));
}

#[test]
fn agrees_with_from_str_radix() {
    for s in ["0", "7", "+7", "abc", "ABC", "", "+", "x", "fffffffffffffffff", "12 3"] {
        let expected = usize::from_str_radix(s, 16).ok();
        assert_eq!(deserialize_hex(s).ok(), expected, "{s:?}");
    }
}

#[test]
fn round_trips_through_hex_numerals() {
    for n in [0usize, 1, 15, 16, 255, 0xdead_beef, usize::MAX] {
        assert_eq!(deserialize_hex(&format!("{n:x}")), Ok(n));
    }
}

#[test]
fn builds_maps_in_order() {
    let map = deserialize_hex_map(vec![("a", 1), ("b", 2), ("0A", 3)]).unwrap();
    assert_eq!(map.len(), 2);
    assert_eq!(map[&10], 3);
    assert_eq!(map[&11], 2);

    let err = deserialize_hex_map(vec![("a", 1), ("zz", 2), ("", 3)]);
    assert_eq!(err, Err(HexError::InvalidDigit));
}
