//! Text: building, comparing, searching and converting strings.
use vstd::prelude::*;
use vstd::utf8::*;

verus! {

/// `String::push` puts one character at the end of a string.
pub assume_specification[ String::push ](s: &mut String, c: char)
    ensures
        final(s)@ == old(s)@.push(c),
;

/// What the error of `String::from_utf8` prints for some bytes.
pub uninterp spec fn utf8_error(bytes: Seq<u8>) -> Seq<char>;

/// Calls `String::from_utf8`, which gives the string whose UTF-8 form the bytes are, and fails on
/// bytes that are not valid UTF-8.
#[verifier::external_body]
pub(crate) fn string_from_utf8(bytes: Vec<u8>) -> (r: Result<String, String>)
    ensures
        r is Ok <==> valid_utf8(bytes@),
        r matches Ok(s) ==> s@ == decode_utf8(bytes@),
        r matches Err(error) ==> error@ == utf8_error(bytes@),
{
    String::from_utf8(bytes).map_err(|error| error.to_string())
}

/// The result of `str::to_lowercase` on a text.
pub uninterp spec fn lowercase(text: Seq<char>) -> Seq<char>;

/// Calls `str::to_lowercase`, which maps a text to lower case by the rules of Unicode.
#[verifier::external_body]
pub(crate) fn lowercase_text(text: &str) -> (r: String)
    ensures
        r@ == lowercase(text@),
{
    text.to_lowercase()
}

/// The characters of a text.
pub fn chars_of(text: &str) -> (r: Vec<char>)
    ensures
        r@ == text@,
{
    let mut r: Vec<char> = Vec::new();
    for c in it: text.chars()
        invariant
            it.seq() == text@,
            r@ == it.seq().take(it.index() as int),
    {
        r.push(c);
    }
    r
}

/// Characters put together to a text.
pub fn text_of(chars: &[char]) -> (r: String)
    ensures
        r@ == chars@,
{
    let mut r = String::new();
    let mut i: usize = 0;
    while i < chars.len()
        invariant
            i <= chars@.len(),
            r@ == chars@.take(i as int),
        decreases chars@.len() - i,
    {
        r.push(chars[i]);
        i += 1;
        assert(chars@.take(i as int) == chars@.take(i - 1).push(chars@[i - 1]));
    }
    assert(chars@.take(chars@.len() as int) == chars@);
    r
}

/// The UTF-8 form of a text.
pub fn utf8_bytes(text: &str) -> (r: Vec<u8>)
    ensures
        r@ == encode_utf8(text@),
{
    let b = text.as_bytes();
    crate::bytes::copy_range(b, 0, b.len())
}

/// A text appended to another.
pub fn append_text(to: &mut String, more: &str)
    ensures
        final(to)@ == old(to)@ + more@,
{
    for c in it: more.chars()
        invariant
            it.seq() == more@,
            to@ == old(to)@ + it.seq().take(it.index() as int),
    {
        to.push(c);
    }
}

/// Two texts, one after the other.
pub fn joined(a: &str, b: &str) -> (r: String)
    ensures
        r@ == a@ + b@,
{
    let mut r = a.to_owned();
    append_text(&mut r, b);
    r
}

/// Whether two texts have the same characters.
pub fn same_text(a: &str, b: &str) -> (r: bool)
    ensures
        r == (a@ == b@),
{
    let x = a.to_owned();
    let y = b.to_owned();
    x == y
}

/// The decimal digit of a number below ten.
pub open spec fn digit_char(d: nat) -> char {
    ('0' as nat + d) as char
}

/// A number written in decimal without leading zeros.
pub open spec fn decimal(n: nat) -> Seq<char>
    decreases n,
{
    if n < 10 {
        seq![digit_char(n)]
    } else {
        decimal(n / 10).push(digit_char(n % 10))
    }
}

fn digit_of(d: u8) -> (r: char)
    requires
        d < 10,
    ensures
        r == digit_char(d as nat),
{
    (48u8 + d) as char
}

/// A number written in decimal without leading zeros.
pub fn decimal_text(n: u64) -> (r: String)
    ensures
        r@ == decimal(n as nat),
    decreases n,
{
    if n < 10 {
        let mut r = String::new();
        r.push(digit_of(n as u8));
        assert(r@ =~= decimal(n as nat));
        r
    } else {
        let mut r = decimal_text(n / 10);
        r.push(digit_of((n % 10) as u8));
        r
    }
}

/// Whether byte string `a` comes before byte string `b` in lexicographic order.
pub open spec fn bytes_less(a: Seq<u8>, b: Seq<u8>) -> bool
    decreases a.len(),
{
    if b.len() == 0 {
        false
    } else if a.len() == 0 {
        true
    } else if a[0] != b[0] {
        a[0] < b[0]
    } else {
        bytes_less(a.drop_first(), b.drop_first())
    }
}

/// Lexicographic order is total: of two byte strings that differ, exactly one comes first.
pub proof fn lemma_bytes_less_total(a: Seq<u8>, b: Seq<u8>)
    ensures
        a == b ==> !bytes_less(a, b),
        a != b ==> bytes_less(a, b) != bytes_less(b, a),
    decreases a.len(),
{
    if a.len() > 0 && b.len() > 0 {
        lemma_bytes_less_total(a.drop_first(), b.drop_first());
        assert(a =~= seq![a[0]] + a.drop_first());
        assert(b =~= seq![b[0]] + b.drop_first());
    } else {
        assert(a.len() == 0 && b.len() == 0 ==> a =~= b);
    }
}

/// Whether `a` comes before `b` in lexicographic order.
pub fn is_bytes_less(a: &[u8], b: &[u8]) -> (r: bool)
    ensures
        r == bytes_less(a@, b@),
{
    let mut i: usize = 0;
    assert(a@.skip(0) =~= a@);
    assert(b@.skip(0) =~= b@);
    loop
        invariant
            i <= a@.len(),
            i <= b@.len(),
            bytes_less(a@, b@) == bytes_less(a@.skip(i as int), b@.skip(i as int)),
        decreases a@.len() - i,
    {
        if i == b.len() {
            return false;
        }
        if i == a.len() {
            return true;
        }
        if a[i] != b[i] {
            return a[i] < b[i];
        }
        assert(a@.skip(i as int).drop_first() =~= a@.skip(i + 1));
        assert(b@.skip(i as int).drop_first() =~= b@.skip(i + 1));
        i += 1;
    }
}

/// Whether text `a` is greater than text `b`: the order of `str`, which compares UTF-8 bytes.
pub open spec fn text_greater(a: Seq<char>, b: Seq<char>) -> bool {
    bytes_less(encode_utf8(b), encode_utf8(a))
}

/// Whether `a` is greater than `b`.
pub fn is_text_greater(a: &str, b: &str) -> (r: bool)
    ensures
        r == text_greater(a@, b@),
{
    is_bytes_less(b.as_bytes(), a.as_bytes())
}

/// Whether `needle` stands in `text` at position `at`.
pub open spec fn found_at(text: Seq<char>, needle: Seq<char>, at: int) -> bool {
    0 <= at && at + needle.len() <= text.len() && text.subrange(at, at + needle.len()) == needle
}

/// Whether `needle` stands somewhere in `text`.
pub open spec fn contains_text(text: Seq<char>, needle: Seq<char>) -> bool {
    exists|at: int| found_at(text, needle, at)
}

fn is_found_at(text: &[char], needle: &[char], at: usize) -> (r: bool)
    requires
        at + needle@.len() <= text@.len(),
    ensures
        r == found_at(text@, needle@, at as int),
{
    let length: usize = text.len();
    let mut k: usize = 0;
    while k < needle.len()
        invariant
            k <= needle@.len(),
            length == text@.len(),
            at + needle@.len() <= text@.len(),
            forall|j: int| 0 <= j < k ==> text@[at + j] == needle@[j],
        decreases needle@.len() - k,
    {
        if text[at + k] != needle[k] {
            assert(text@.subrange(at as int, at + needle@.len())[k as int] != needle@[k as int]);
            return false;
        }
        k += 1;
    }
    assert(text@.subrange(at as int, at + needle@.len()) =~= needle@);
    true
}

/// Whether `needle` stands somewhere in `text`.
pub fn is_contained(text: &str, needle: &str) -> (r: bool)
    ensures
        r == contains_text(text@, needle@),
{
    let t = chars_of(text);
    let n = chars_of(needle);
    if n.len() > t.len() {
        return false;
    }
    let last: usize = t.len() - n.len();
    let mut at: usize = 0;
    loop
        invariant
            at <= last,
            last == t@.len() - n@.len(),
            t@ == text@,
            n@ == needle@,
            forall|j: int| 0 <= j < at ==> !found_at(t@, n@, j),
        decreases last - at,
    {
        if is_found_at(t.as_slice(), n.as_slice(), at) {
            return true;
        }
        if at == last {
            assert forall|j: int| !found_at(t@, n@, j) by {
                if j < 0 || j > last {
                } else {
                }
            }
            return false;
        }
        at += 1;
    }
}

/// Whether `text` begins with `prefix`.
pub open spec fn begins_with(text: Seq<char>, prefix: Seq<char>) -> bool {
    found_at(text, prefix, 0)
}

/// Whether `text` begins with `prefix`.
pub fn is_prefix(text: &str, prefix: &str) -> (r: bool)
    ensures
        r == begins_with(text@, prefix@),
{
    let t = chars_of(text);
    let p = chars_of(prefix);
    p.len() <= t.len() && is_found_at(t.as_slice(), p.as_slice(), 0)
}

/// A part of a text, from one character to before another.
pub fn sub_text(text: &str, from: usize, to: usize) -> (r: String)
    requires
        from <= to <= text@.len(),
    ensures
        r@ == text@.subrange(from as int, to as int),
{
    let c = chars_of(text);
    let mut r = String::new();
    let mut i: usize = from;
    while i < to
        invariant
            from <= i <= to <= c@.len(),
            c@ == text@,
            r@ == c@.subrange(from as int, i as int),
        decreases to - i,
    {
        r.push(c[i]);
        i += 1;
        assert(c@.subrange(from as int, i as int) == c@.subrange(from as int, i - 1).push(
            c@[i - 1],
        ));
    }
    r
}

/// The first byte in which two byte strings differ decides which comes first. A byte string comes
/// before those that continue it.
pub proof fn law_first_difference_decides(
    start: Seq<u8>,
    x: u8,
    a: Seq<u8>,
    y: u8,
    b: Seq<u8>,
)
    ensures
        x < y ==> bytes_less(start + seq![x] + a, start + seq![y] + b),
        x > y ==> !bytes_less(start + seq![x] + a, start + seq![y] + b),
        bytes_less(start, start + seq![x] + a),
        !bytes_less(start + seq![x] + a, start),
    decreases start.len(),
{
    let first = start + seq![x] + a;
    let second = start + seq![y] + b;
    if start.len() > 0 {
        let rest = start.drop_first();
        law_first_difference_decides(rest, x, a, y, b);
        assert(first.drop_first() =~= rest + seq![x] + a);
        assert(second.drop_first() =~= rest + seq![y] + b);
        assert(first[0] == start[0] && second[0] == start[0]);
    } else {
        assert(first[0] == x && second[0] == y);
    }
}

} // verus!
