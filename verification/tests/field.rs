use ark_ff::{BigInteger, Field, PrimeField};
use prune::field::Fr;

/// The same element, as `ark_bn254` holds it.
fn ark(x: Fr) -> ark_bn254::Fr {
    ark_bn254::Fr::from_le_bytes_mod_order(&x.to_bytes_le())
}

/// The 32 little-endian bytes of the order of the field.
fn order_bytes() -> Vec<u8> {
    ark_bn254::Fr::MODULUS.to_bytes_le()
}

fn minus_one() -> Fr {
    let mut bytes = order_bytes();
    bytes[0] -= 1;
    Fr::from_le_bytes_mod_order(&bytes)
}

#[test]
fn sums_and_products_are_reduced() {
    assert_eq!(Fr::from(2).plus(Fr::from(3)), Fr::from(5));
    assert_eq!(Fr::from(2).times(Fr::from(3)), Fr::from(6));
    assert_eq!(minus_one().plus(Fr::from(3)), Fr::from(2));
    assert_eq!(minus_one().times(minus_one()), Fr::from(1));
}

#[test]
fn big_products_agree_with_the_field() {
    let a = Fr::from_le_bytes_mod_order(&[0xa5; 32]);
    let b = Fr::from_le_bytes_mod_order(&[0x3c; 32]);
    assert_eq!(ark(a.times(b)), ark(a) * ark(b));
    assert_eq!(ark(a.plus(b)), ark(a) + ark(b));
}

#[test]
fn every_element_but_zero_has_an_inverse() {
    assert_eq!(Fr::zero().inverse(), None);
    let inverse = Fr::from(7).inverse().unwrap();
    assert_eq!(inverse.times(Fr::from(7)), Fr::from(1));
    assert_eq!(ark(inverse), ark(Fr::from(7)).inverse().unwrap());
}

#[test]
fn bytes_are_reduced() {
    assert_eq!(Fr::from_le_bytes_mod_order(&order_bytes()), Fr::zero());
    assert_eq!(Fr::from_le_bytes_mod_order(&[]), Fr::zero());
    assert_eq!(Fr::from_le_bytes_mod_order(&[1, 1]), Fr::from(257));
    let mut long = order_bytes();
    long.extend_from_slice(&[0, 0, 0]);
    assert_eq!(Fr::from_le_bytes_mod_order(&long), Fr::zero());
}

#[test]
fn compressed_form_reads_back() {
    let x = Fr::from(0x0102_0304);
    let bytes = x.serialize_compressed();
    let mut expected = vec![4, 3, 2, 1];
    expected.resize(32, 0);
    assert_eq!(bytes, expected);
    assert_eq!(x.to_bytes_le(), expected);
    assert_eq!(Fr::deserialize_compressed(&bytes), Some(x));
    let mut longer = bytes.clone();
    longer.push(0xff);
    assert_eq!(Fr::deserialize_compressed(&longer), Some(x));
}

#[test]
fn malformed_compressed_forms_are_refused() {
    assert_eq!(Fr::deserialize_compressed(&[0u8; 31]), None);
    assert_eq!(Fr::deserialize_compressed(&order_bytes()), None);
    assert_eq!(Fr::deserialize_compressed(&minus_one().to_bytes_le()), Some(minus_one()));
}

#[test]
fn random_elements_differ() {
    assert_ne!(Fr::random(), Fr::random());
}
