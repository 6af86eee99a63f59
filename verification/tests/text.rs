use prune::field::Fr;
use prune::text::{append_decimal, fr_from_hex, fr_to_hex, ElementError};

#[test]
fn element_text_is_little_endian() {
    assert_eq!(fr_to_hex(Fr::from(0x0102)), format!("0201{}", "00".repeat(30)));
}

#[test]
fn element_text_reads_back() {
    let x = Fr::from_le_bytes_mod_order(&[0x5a; 32]);
    assert_eq!(fr_from_hex(&fr_to_hex(x)), Ok(x));
    assert_eq!(fr_from_hex(&fr_to_hex(x).to_uppercase()), Ok(x));
}

#[test]
fn malformed_element_texts_are_refused() {
    assert_eq!(fr_from_hex("zz"), Err(ElementError::InvalidHex));
    assert_eq!(fr_from_hex("012"), Err(ElementError::InvalidHex));
    assert_eq!(fr_from_hex("00"), Err(ElementError::InvalidElement));
    assert_eq!(fr_from_hex(&"ff".repeat(32)), Err(ElementError::InvalidElement));
}

#[test]
fn decimal_digits() {
    for n in [0u64, 7, 10, 1234567890, u64::MAX] {
        let mut text = String::from("n = ");
        append_decimal(&mut text, n);
        assert_eq!(text, format!("n = {n}"));
    }
}
