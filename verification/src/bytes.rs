//! Fixed-width integers as byte strings, and comparison of byte strings.
use vstd::prelude::*;

verus! {

/// The number that a byte string stands for, most significant byte first.
pub open spec fn be_value(s: Seq<u8>) -> nat
    decreases s.len(),
{
    if s.len() == 0 {
        0
    } else {
        be_value(s.drop_last()) * 256 + s.last() as nat
    }
}

/// The `width` low bytes of a number, most significant byte first.
pub open spec fn be_bytes(value: nat, width: nat) -> Seq<u8>
    decreases width,
{
    if width == 0 {
        Seq::empty()
    } else {
        be_bytes(value / 256, (width - 1) as nat).push((value % 256) as u8)
    }
}

/// The number that a byte string stands for, least significant byte first.
pub open spec fn le_value(s: Seq<u8>) -> nat {
    be_value(s.reverse())
}

/// The `width` low bytes of a number, least significant byte first.
pub open spec fn le_bytes(value: nat, width: nat) -> Seq<u8> {
    be_bytes(value, width).reverse()
}

/// The number of values that `width` bytes can take.
pub open spec fn byte_range(width: nat) -> nat
    decreases width,
{
    if width == 0 {
        1
    } else {
        256 * byte_range((width - 1) as nat)
    }
}

/// The sizes of the ranges of the integer types.
pub proof fn lemma_byte_ranges()
    ensures
        byte_range(2) == 0x1_0000,
        byte_range(4) == 0x1_0000_0000,
        byte_range(8) == 0x1_0000_0000_0000_0000,
        byte_range(16) == 0x1_0000_0000_0000_0000_0000_0000_0000_0000,
{
    reveal_with_fuel(byte_range, 17);
}

pub proof fn lemma_byte_range_monotone(a: nat, b: nat)
    requires
        a <= b,
    ensures
        1 <= byte_range(a) <= byte_range(b),
    decreases b,
{
    if a == b {
        if b > 0 {
            lemma_byte_range_monotone((b - 1) as nat, (b - 1) as nat);
        }
    } else {
        lemma_byte_range_monotone(a, (b - 1) as nat);
    }
}

/// `be_bytes` has the width that it is asked for.
pub proof fn lemma_be_bytes_len(value: nat, width: nat)
    ensures
        be_bytes(value, width).len() == width,
    decreases width,
{
    if width > 0 {
        lemma_be_bytes_len(value / 256, (width - 1) as nat);
    }
}

/// Reading back what was written gives the number again.
pub proof fn lemma_be_value_of_bytes(value: nat, width: nat)
    requires
        value < byte_range(width),
    ensures
        be_value(be_bytes(value, width)) == value,
    decreases width,
{
    if width > 0 {
        lemma_be_value_of_bytes(value / 256, (width - 1) as nat);
        let s = be_bytes(value, width);
        assert(s.drop_last() == be_bytes(value / 256, (width - 1) as nat));
        assert(s.last() == (value % 256) as u8);
    }
}

/// Writing what was read gives the byte string again.
pub proof fn lemma_be_bytes_of_value(s: Seq<u8>)
    ensures
        be_value(s) < byte_range(s.len()),
        be_bytes(be_value(s), s.len()) == s,
    decreases s.len(),
{
    if s.len() > 0 {
        lemma_be_bytes_of_value(s.drop_last());
        let v = be_value(s.drop_last());
        assert(be_value(s) == v * 256 + s.last() as nat);
        assert((v * 256 + s.last() as nat) / 256 == v);
        assert((v * 256 + s.last() as nat) % 256 == s.last() as nat);
        assert(s == s.drop_last().push(s.last()));
    }
}

/// Reading back what was written gives the number again, least significant byte first.
pub proof fn lemma_le_value_of_bytes(value: nat, width: nat)
    requires
        value < byte_range(width),
    ensures
        le_bytes(value, width).len() == width,
        le_value(le_bytes(value, width)) == value,
{
    lemma_be_bytes_len(value, width);
    lemma_be_value_of_bytes(value, width);
    assert(be_bytes(value, width).reverse().reverse() =~= be_bytes(value, width));
}

/// Two byte strings are equal exactly where this says so.
pub fn same_bytes(a: &[u8], b: &[u8]) -> (r: bool)
    ensures
        r == (a@ == b@),
{
    if a.len() != b.len() {
        return false;
    }
    let mut i: usize = 0;
    while i < a.len()
        invariant
            i <= a@.len(),
            a@.len() == b@.len(),
            forall|k: int| 0 <= k < i ==> a@[k] == b@[k],
        decreases a@.len() - i,
    {
        if a[i] != b[i] {
            return false;
        }
        i += 1;
    }
    assert(a@ =~= b@);
    true
}

/// The `width` low bytes of `value`, most significant byte first.
pub fn to_be_bytes(value: u128, width: usize) -> (r: Vec<u8>)
    ensures
        r@ == be_bytes(value as nat, width as nat),
    decreases width,
{
    if width == 0 {
        Vec::new()
    } else {
        let mut r = to_be_bytes(value / 256, width - 1);
        let low: u8 = (value % 256) as u8;
        r.push(low);
        r
    }
}

/// The number that at most sixteen bytes stand for, most significant byte first.
pub fn from_be_bytes(s: &[u8]) -> (r: u128)
    requires
        s@.len() <= 16,
    ensures
        r == be_value(s@),
{
    let mut r: u128 = 0;
    let mut i: usize = 0;
    proof {
        lemma_byte_ranges();
    }
    while i < s.len()
        invariant
            i <= s@.len() <= 16,
            r == be_value(s@.take(i as int)),
        decreases s@.len() - i,
    {
        proof {
            lemma_byte_ranges();
            let head = s@.take(i as int);
            let more = s@.take(i + 1);
            assert(more.drop_last() == head);
            assert(more.last() == s@[i as int]);
            lemma_be_bytes_of_value(more);
            lemma_byte_range_monotone(more.len(), 16);
        }
        r = r * 256 + s[i] as u128;
        i += 1;
    }
    assert(s@.take(s@.len() as int) == s@);
    r
}

/// A byte string backwards.
pub fn reversed(s: &[u8]) -> (r: Vec<u8>)
    ensures
        r@ == s@.reverse(),
{
    let mut r: Vec<u8> = Vec::new();
    let mut i: usize = s.len();
    while i > 0
        invariant
            i <= s@.len(),
            r@.len() == s@.len() - i,
            forall|k: int| 0 <= k < r@.len() ==> r@[k] == s@[s@.len() - 1 - k],
        decreases i,
    {
        i -= 1;
        r.push(s[i]);
    }
    assert(r@ =~= s@.reverse());
    r
}

/// The `width` low bytes of `value`, least significant byte first.
pub fn to_le_bytes(value: u128, width: usize) -> (r: Vec<u8>)
    ensures
        r@ == le_bytes(value as nat, width as nat),
{
    let be = to_be_bytes(value, width);
    reversed(be.as_slice())
}

/// The number that at most sixteen bytes stand for, least significant byte first.
pub fn from_le_bytes(s: &[u8]) -> (r: u128)
    requires
        s@.len() <= 16,
    ensures
        r == le_value(s@),
{
    let be = reversed(s);
    from_be_bytes(be.as_slice())
}

/// A part of a byte string, copied.
pub fn copy_range(s: &[u8], from: usize, to: usize) -> (r: Vec<u8>)
    requires
        from <= to <= s@.len(),
    ensures
        r@ == s@.subrange(from as int, to as int),
{
    let mut r: Vec<u8> = Vec::new();
    let mut i: usize = from;
    while i < to
        invariant
            from <= i <= to <= s@.len(),
            r@ == s@.subrange(from as int, i as int),
        decreases to - i,
    {
        r.push(s[i]);
        i += 1;
        assert(s@.subrange(from as int, i as int) == s@.subrange(from as int, i - 1).push(
            s@[i - 1],
        ));
    }
    r
}

/// A byte string, copied.
pub fn copy_of(s: &[u8]) -> (r: Vec<u8>)
    ensures
        r@ == s@,
{
    let r = copy_range(s, 0, s.len());
    assert(r@ =~= s@);
    r
}

/// A byte string appended to another.
pub fn append_bytes(to: &mut Vec<u8>, more: &[u8])
    ensures
        final(to)@ == old(to)@ + more@,
{
    let mut i: usize = 0;
    assert(to@ == old(to)@ + more@.take(0));
    while i < more.len()
        invariant
            i <= more@.len(),
            to@ == old(to)@ + more@.take(i as int),
        decreases more@.len() - i,
    {
        to.push(more[i]);
        i += 1;
        assert(more@.take(i as int) == more@.take(i - 1).push(more@[i - 1]));
    }
    assert(more@.take(more@.len() as int) == more@);
}

/// The first thirty-two bytes of a byte string as an array.
pub fn to_array_32(s: &[u8]) -> (r: [u8; 32])
    requires
        s@.len() == 32,
    ensures
        r@ == s@,
{
    let mut r: [u8; 32] = [0u8; 32];
    let mut i: usize = 0;
    while i < 32
        invariant
            i <= 32,
            s@.len() == 32,
            forall|k: int| 0 <= k < i ==> r@[k] == s@[k],
        decreases 32 - i,
    {
        r[i] = s[i];
        i += 1;
    }
    assert(r@ =~= s@);
    r
}

} // verus!
