//! Hexadecimal and decimal text.
use vstd::prelude::*;
use vstd::string::{StrSliceExecFns, StringExecFns, StringSliceAdditionalSpecFns};

use crate::field::{decodes, law_compressed_round_trip, modulus, Fr};
use crate::bytes::{le_bytes, le_value};

verus! {

/// The lower-case hexadecimal digit of a number below 16.
pub open spec fn hex_digit(n: int) -> char {
    if n < 10 {
        (48 + n) as char
    } else {
        (87 + n) as char
    }
}

/// The value of a hexadecimal digit of either case.
pub open spec fn hex_value(c: char) -> Option<int> {
    if '0' <= c <= '9' {
        Some(c as int - 48)
    } else if 'a' <= c <= 'f' {
        Some(c as int - 87)
    } else if 'A' <= c <= 'F' {
        Some(c as int - 55)
    } else {
        None
    }
}

/// Two digits for each byte, the high one first.
pub open spec fn hex_text(bytes: Seq<u8>) -> Seq<char> {
    Seq::new(
        2 * bytes.len(),
        |i: int|
            if i % 2 == 0 {
                hex_digit(bytes[i / 2] as int / 16)
            } else {
                hex_digit(bytes[i / 2] as int % 16)
            },
    )
}

/// Whether a text is an even number of hexadecimal digits.
pub open spec fn is_hex(text: Seq<char>) -> bool {
    text.len() % 2 == 0 && forall|i: int| 0 <= i < text.len() ==> hex_value(#[trigger] text[i]) is Some
}

/// The bytes that an even number of digits stands for.
pub open spec fn hex_bytes(text: Seq<char>) -> Seq<u8> {
    Seq::new(
        text.len() / 2,
        |i: int| (16 * hex_value(text[2 * i])->0 + hex_value(text[2 * i + 1])->0) as u8,
    )
}

/// `hex::encode`: two lower-case digits for each byte.
#[verifier::external_body]
pub(crate) fn hex_encode(bytes: &[u8]) -> (text: String)
    ensures
        text@ == hex_text(bytes@),
{
    hex::encode(bytes)
}

/// `hex::decode`: the bytes of a text made of an even number of digits of either case; it fails on
/// any other text.
#[verifier::external_body]
pub(crate) fn hex_decode(text: &str) -> (r: Option<Vec<u8>>)
    ensures
        r is Some <==> is_hex(text@),
        r matches Some(bytes) ==> bytes@ == hex_bytes(text@),
{
    hex::decode(text).ok()
}

/// Encoded bytes decode to themselves.
pub proof fn law_hex_round_trip(bytes: Seq<u8>)
    ensures
        is_hex(hex_text(bytes)),
        hex_bytes(hex_text(bytes)) == bytes,
{
    let text = hex_text(bytes);
    assert forall|n: int| 0 <= n < 16 implies hex_value(#[trigger] hex_digit(n)) == Some(n) by {}
    assert forall|i: int| 0 <= i < text.len() implies hex_value(#[trigger] text[i]) is Some by {}
    assert forall|i: int| 0 <= i < bytes.len() implies #[trigger] hex_bytes(text)[i] == bytes[i] by {
        assert(text[2 * i] == hex_digit(bytes[i] as int / 16));
        assert(text[2 * i + 1] == hex_digit(bytes[i] as int % 16));
    }
    assert(hex_bytes(text) =~= bytes);
}

/// Why a text is not a field element.
#[derive(Clone, Copy, Debug, PartialEq, Eq, Structural)]
pub enum ElementError {
    /// The text is not an even number of hexadecimal digits.
    InvalidHex,
    /// The bytes are not the compressed form of a field element.
    InvalidElement,
}

/// The digits of the compressed form of an element.
pub open spec fn element_text(x: nat) -> Seq<char> {
    hex_text(le_bytes(x, 32))
}

/// What is wrong with the text of an element, where something is.
pub open spec fn element_error(text: Seq<char>) -> Option<ElementError> {
    if !is_hex(text) {
        Some(ElementError::InvalidHex)
    } else if !decodes(hex_bytes(text)) {
        Some(ElementError::InvalidElement)
    } else {
        None
    }
}

/// The element that a text stands for.
pub open spec fn element_value(text: Seq<char>) -> nat {
    le_value(hex_bytes(text).take(32))
}

/// The digits of the compressed form of an element.
pub fn fr_to_hex(f: Fr) -> (text: String)
    ensures
        text@ == element_text(f@),
{
    hex_encode(f.serialize_compressed().as_slice())
}

/// Reads an element from the digits of its compressed form.
pub fn fr_from_hex(s: &str) -> (r: Result<Fr, ElementError>)
    ensures
        match r {
            Ok(f) => element_error(s@) is None && f@ == element_value(s@),
            Err(e) => element_error(s@) == Some(e),
        },
{
    match hex_decode(s) {
        Some(bytes) => match Fr::deserialize_compressed(bytes.as_slice()) {
            Some(f) => Ok(f),
            None => Err(ElementError::InvalidElement),
        },
        None => Err(ElementError::InvalidHex),
    }
}

/// The text of an element reads as that element.
pub proof fn law_element_text_round_trip(x: nat)
    requires
        x < modulus(),
    ensures
        element_error(element_text(x)) is None,
        element_value(element_text(x)) == x,
{
    law_hex_round_trip(le_bytes(x, 32));
    law_compressed_round_trip(x, Seq::empty());
    assert(le_bytes(x, 32) + Seq::<u8>::empty() =~= le_bytes(x, 32));
}

/// The decimal digits of a number.
pub open spec fn decimal_text(n: nat) -> Seq<char>
    decreases n,
{
    if n < 10 {
        seq![hex_digit(n as int)]
    } else {
        decimal_text(n / 10) + seq![hex_digit((n % 10) as int)]
    }
}

/// The text of a decimal digit.
fn digit_str(n: u64) -> (s: &'static str)
    requires
        n < 10,
    ensures
        s@ == seq![hex_digit(n as int)],
{
    proof {
        reveal_strlit("0");
        reveal_strlit("1");
        reveal_strlit("2");
        reveal_strlit("3");
        reveal_strlit("4");
        reveal_strlit("5");
        reveal_strlit("6");
        reveal_strlit("7");
        reveal_strlit("8");
        reveal_strlit("9");
    }
    let s = match n {
        0 => "0",
        1 => "1",
        2 => "2",
        3 => "3",
        4 => "4",
        5 => "5",
        6 => "6",
        7 => "7",
        8 => "8",
        _ => "9",
    };
    assert(s@ =~= seq![hex_digit(n as int)]);
    s
}

/// Appends the decimal digits of a number.
pub fn append_decimal(text: &mut String, n: u64)
    ensures
        final(text)@ == old(text)@ + decimal_text(n as nat),
    decreases n,
{
    let ghost start = text@;
    if n >= 10 {
        append_decimal(text, n / 10);
    }
    text.append(digit_str(n % 10));
    assert(text@ =~= start + decimal_text(n as nat));
}

/// A path below a directory. A separator is put between the two unless the directory ends with one
/// or is empty.
pub open spec fn joined_path(dir: Seq<char>, rest: Seq<char>) -> Seq<char> {
    if dir.len() == 0 || dir.last() == '/' {
        dir + rest
    } else {
        dir + "/"@ + rest
    }
}

/// Joins a directory and a relative path.
pub fn join_path(dir: String, rest: &str) -> (path: String)
    ensures
        path@ == joined_path(dir@, rest@),
{
    let mut path = dir;
    let len: usize = path.as_str().unicode_len();
    if len > 0 && path.as_str().get_char(len - 1) != '/' {
        path.append("/");
    }
    path.append(rest);
    path
}

/// The text of an element is the digits of its 32 bytes, the least significant byte first; any text
/// whose first 64 digits are those is read as that element.
pub proof fn law_element_text_is_hex_of_bytes(x: nat, text: Seq<char>)
    ensures
        element_text(x) == hex_text(le_bytes(x, 32)),
        element_error(text) is None <==> is_hex(text) && hex_bytes(text).len() >= 32 && le_value(
            hex_bytes(text).take(32),
        ) < modulus(),
        !is_hex(text) <==> element_error(text) == Some(ElementError::InvalidHex),
        element_value(text) == le_value(hex_bytes(text).take(32)),
{
}

/// A number is written digit by digit in base ten.
pub proof fn law_decimal_digits(n: nat, d: nat)
    requires
        d < 10,
    ensures
        decimal_text(d) == seq![(48 + d) as char],
        n > 0 ==> decimal_text(10 * n + d) == decimal_text(n).push((48 + d) as char),
{
    if n > 0 {
        assert((10 * n + d) / 10 == n);
        assert((10 * n + d) % 10 == d);
        assert(decimal_text(10 * n + d) =~= decimal_text(n).push((48 + d) as char));
    }
}

/// A path below a directory is the directory, one separator where it does not end with one, and the
/// rest. Without a directory it is the rest.
pub proof fn law_path_is_joined(dir: Seq<char>, rest: Seq<char>)
    ensures
        dir.len() == 0 ==> joined_path(dir, rest) == rest,
        dir.len() > 0 && dir.last() == '/' ==> joined_path(dir, rest) == dir + rest,
        dir.len() > 0 && dir.last() != '/' ==> joined_path(dir, rest) == dir.push('/') + rest,
{
    reveal_strlit("/");
    assert(dir.len() == 0 ==> dir + rest =~= rest);
    assert("/"@ =~= seq!['/']);
    assert(dir + "/"@ + rest =~= dir.push('/') + rest);
}

} // verus!
