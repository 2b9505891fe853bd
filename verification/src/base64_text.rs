//! Base64 text without padding, in the standard and the URL-safe alphabet.
use base64::Engine;
use base64::engine::general_purpose::{STANDARD_NO_PAD, URL_SAFE_NO_PAD};
use vstd::prelude::*;

verus! {

/// The symbol for a six bit value.
pub open spec fn symbol(url_safe: bool, v: int) -> char {
    if v < 26 {
        ('A' as int + v) as char
    } else if v < 52 {
        ('a' as int + v - 26) as char
    } else if v < 62 {
        ('0' as int + v - 52) as char
    } else if v == 62 {
        if url_safe {
            '-'
        } else {
            '+'
        }
    } else {
        if url_safe {
            '_'
        } else {
            '/'
        }
    }
}

/// The byte at a position, and zero past the end.
pub open spec fn byte_or_zero(b: Seq<u8>, k: int) -> int {
    if 0 <= k < b.len() {
        b[k] as int
    } else {
        0
    }
}

/// The bits `6 * i` to `6 * i + 5` of a byte string, read from the most significant bit on.
pub open spec fn sextet(b: Seq<u8>, i: int) -> int {
    let g = 3 * (i / 4);
    if i % 4 == 0 {
        byte_or_zero(b, g) / 4
    } else if i % 4 == 1 {
        (byte_or_zero(b, g) % 4) * 16 + byte_or_zero(b, g + 1) / 16
    } else if i % 4 == 2 {
        (byte_or_zero(b, g + 1) % 16) * 4 + byte_or_zero(b, g + 2) / 64
    } else {
        byte_or_zero(b, g + 2) % 64
    }
}

/// The number of symbols for a number of bytes: the number of bits over six, rounded up.
pub open spec fn base64_len(bytes: nat) -> nat {
    (4 * bytes + 2) / 3
}

/// The base64 text of a byte string, without padding.
pub open spec fn base64_text(url_safe: bool, b: Seq<u8>) -> Seq<char> {
    Seq::new(base64_len(b.len()), |i: int| symbol(url_safe, sextet(b, i)))
}

/// What the error that `Engine::decode` gives for a text prints.
pub uninterp spec fn base64_error(url_safe: bool, text: Seq<char>) -> Seq<char>;

/// Calls `Engine::encode` of `URL_SAFE_NO_PAD`, which gives the unpadded base64 text.
#[verifier::external_body]
pub(crate) fn url_safe_encode(bytes: &[u8]) -> (r: String)
    requires
        bytes@.len() <= 0xffff,
    ensures
        r@ == base64_text(true, bytes@),
{
    URL_SAFE_NO_PAD.encode(bytes)
}

/// Calls `Engine::encode` of `STANDARD_NO_PAD`, which gives the unpadded base64 text.
#[verifier::external_body]
pub(crate) fn standard_encode(bytes: &[u8]) -> (r: String)
    requires
        bytes@.len() <= 0xffff,
    ensures
        r@ == base64_text(false, bytes@),
{
    STANDARD_NO_PAD.encode(bytes)
}

/// Calls `Engine::decode` of `URL_SAFE_NO_PAD`. This engine accepts neither padding nor set bits
/// behind the last whole byte: it gives the bytes whose text the input is, and an error on a text
/// that is not the text of any bytes.
#[verifier::external_body]
pub(crate) fn url_safe_decode(text: &str) -> (r: Result<Vec<u8>, String>)
    ensures
        match r {
            Ok(bytes) => base64_text(true, bytes@) == text@,
            Err(error) => error@ == base64_error(true, text@) && (forall|b: Seq<u8>| #[trigger]
                base64_text(true, b) != text@),
        },
{
    URL_SAFE_NO_PAD.decode(text).map_err(|error| error.to_string())
}

/// Calls `Engine::decode` of `STANDARD_NO_PAD`. This engine accepts neither padding nor set bits
/// behind the last whole byte: it gives the bytes whose text the input is, and an error on a text
/// that is not the text of any bytes.
#[verifier::external_body]
pub(crate) fn standard_decode(text: &str) -> (r: Result<Vec<u8>, String>)
    ensures
        match r {
            Ok(bytes) => base64_text(false, bytes@) == text@,
            Err(error) => error@ == base64_error(false, text@) && (forall|b: Seq<u8>| #[trigger]
                base64_text(false, b) != text@),
        },
{
    STANDARD_NO_PAD.decode(text).map_err(|error| error.to_string())
}

/// Different six bit values have different symbols.
pub proof fn lemma_symbol_injective(url_safe: bool, v: int, w: int)
    requires
        0 <= v < 64,
        0 <= w < 64,
        symbol(url_safe, v) == symbol(url_safe, w),
    ensures
        v == w,
{
}

proof fn lemma_sextet_range(b: Seq<u8>, i: int)
    requires
        0 <= i,
    ensures
        0 <= sextet(b, i) < 64,
{
}

/// A byte is put together again from the symbols that hold its bits.
proof fn lemma_byte_from_sextets(b: Seq<u8>, k: int)
    requires
        0 <= k < b.len(),
    ensures
        ({
            let g = k / 3;
            &&& k % 3 == 0 ==> b[k] as int == sextet(b, 4 * g) * 4 + sextet(b, 4 * g + 1) / 16
            &&& k % 3 == 1 ==> b[k] as int == (sextet(b, 4 * g + 1) % 16) * 16 + sextet(
                b,
                4 * g + 2,
            ) / 4
            &&& k % 3 == 2 ==> b[k] as int == (sextet(b, 4 * g + 2) % 4) * 64 + sextet(
                b,
                4 * g + 3,
            )
        }),
{
    let g = k / 3;
    assert((4 * g) / 4 == g && (4 * g) % 4 == 0);
    assert((4 * g + 1) / 4 == g && (4 * g + 1) % 4 == 1);
    assert((4 * g + 2) / 4 == g && (4 * g + 2) % 4 == 2);
    assert((4 * g + 3) / 4 == g && (4 * g + 3) % 4 == 3);
    assert(k == 3 * g + k % 3);
}

/// Different byte strings have different base64 texts.
pub proof fn lemma_base64_injective(url_safe: bool, a: Seq<u8>, b: Seq<u8>)
    requires
        base64_text(url_safe, a) == base64_text(url_safe, b),
    ensures
        a == b,
{
    let text = base64_text(url_safe, a);
    assert(text.len() == base64_len(a.len()));
    assert(text.len() == base64_len(b.len()));
    assert(a.len() == b.len());
    assert forall|i: int| 0 <= i < text.len() implies sextet(a, i) == sextet(b, i) by {
        lemma_sextet_range(a, i);
        lemma_sextet_range(b, i);
        assert(text[i] == symbol(url_safe, sextet(a, i)));
        assert(base64_text(url_safe, b)[i] == symbol(url_safe, sextet(b, i)));
        lemma_symbol_injective(url_safe, sextet(a, i), sextet(b, i));
    }
    assert forall|k: int| 0 <= k < a.len() implies a[k] == b[k] by {
        lemma_byte_from_sextets(a, k);
        lemma_byte_from_sextets(b, k);
        let g = k / 3;
        assert(k == 3 * g + k % 3);
        if k % 3 == 0 {
            assert(4 * g + 1 < text.len());
        } else if k % 3 == 1 {
            assert(4 * g + 2 < text.len());
        } else {
            assert(4 * g + 3 < text.len());
        }
    }
    assert(a =~= b);
}

/// Base64 text is ASCII, and the URL-safe alphabet has none of the three characters that need
/// escaping in a URL.
pub proof fn lemma_base64_alphabet(url_safe: bool, b: Seq<u8>, i: int)
    requires
        0 <= i < base64_len(b.len()),
    ensures
        (base64_text(url_safe, b)[i] as int) < 128,
        base64_text(url_safe, b)[i] != '=',
        url_safe ==> base64_text(url_safe, b)[i] != '+' && base64_text(url_safe, b)[i] != '/',
{
    lemma_sextet_range(b, i);
}

} // verus!
