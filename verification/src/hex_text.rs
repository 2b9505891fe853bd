//! Bytes as hexadecimal text
use vstd::prelude::*;

verus! {

/// The digit for a number below sixteen.
pub open spec fn hex_digit(d: nat) -> char {
    if d < 10 {
        (48 + d) as char
    } else {
        (87 + d) as char
    }
}

/// Two digits for each byte, in lower case.
pub open spec fn hex_text(bytes: Seq<u8>) -> Seq<char> {
    Seq::new(
        bytes.len() * 2,
        |i: int|
            if i % 2 == 0 {
                hex_digit(bytes[i / 2] as nat / 16)
            } else {
                hex_digit(bytes[i / 2] as nat % 16)
            },
    )
}

/// The number that a digit stands for. Upper and lower case are the same.
pub open spec fn digit_value(c: char) -> Option<nat> {
    if '0' <= c <= '9' {
        Some((c as int - 48) as nat)
    } else if 'a' <= c <= 'f' {
        Some((c as int - 87) as nat)
    } else if 'A' <= c <= 'F' {
        Some((c as int - 55) as nat)
    } else {
        None
    }
}

/// Whether a text stands for bytes: it is made of pairs of digits.
pub open spec fn is_hex(text: Seq<char>) -> bool {
    &&& text.len() % 2 == 0
    &&& forall|i: int| 0 <= i < text.len() ==> digit_value(#[trigger] text[i]) is Some
}

/// The byte that the pair of digits with this index stands for.
pub open spec fn pair_value(text: Seq<char>, i: int) -> nat {
    16 * digit_value(text[2 * i])->Some_0 + digit_value(text[2 * i + 1])->Some_0
}

/// Calls `hex::encode`, which writes two digits in lower case for each byte.
#[verifier::external_body]
pub(crate) fn hex_encode(bytes: &[u8]) -> (r: String)
    ensures
        r@ == hex_text(bytes@),
{
    hex::encode(bytes)
}

/// Calls `hex::decode`, which reads pairs of digits in upper or lower case. It refuses a text of
/// odd length and a text with anything but digits. What it says then is left out.
#[verifier::external_body]
pub(crate) fn hex_decode(text: &str) -> (r: Option<Vec<u8>>)
    ensures
        r is Some == is_hex(text@),
        r is Some ==> r->Some_0@.len() == text@.len() / 2,
        r is Some ==> forall|i: int|
            0 <= i < r->Some_0@.len() ==> #[trigger] r->Some_0@[i] == pair_value(text@, i),
{
    hex::decode(text).ok()
}

/// Whatever is written as hexadecimal text is read back from it.
pub proof fn law_hex_round_trip(bytes: Seq<u8>)
    ensures
        is_hex(hex_text(bytes)),
        hex_text(bytes).len() / 2 == bytes.len(),
        forall|i: int|
            0 <= i < bytes.len() ==> #[trigger] bytes[i] == pair_value(hex_text(bytes), i),
{
    let text = hex_text(bytes);
    assert forall|i: int| 0 <= i < text.len() implies digit_value(#[trigger] text[i]) is Some by {
        assert(0 <= i / 2 < bytes.len());
    }
    assert forall|i: int| 0 <= i < bytes.len() implies #[trigger] bytes[i] == pair_value(
        text,
        i,
    ) by {
        assert((2 * i) / 2 == i && (2 * i) % 2 == 0);
        assert((2 * i + 1) / 2 == i && (2 * i + 1) % 2 == 1);
    }
}

} // verus!
