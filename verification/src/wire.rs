//! The pieces that every wire layout is made of: integers of fixed width in
//! the byte order of the machine, runs of zero bytes, and name fields.

use vstd::prelude::*;

verus! {

/// The byte order of the machine whose kernel is spoken to.
#[derive(Clone, Copy, Debug, PartialEq, Eq, Structural)]
pub enum Endian {
    Little,
    Big,
}

/// The width of a name field.
pub const NAME_SIZE: usize = 32;

/// Byte `k` of a 32-bit integer, counted from the least significant.
#[verifier::opaque]
pub open spec fn byte_of(x: u32, k: int) -> u8 {
    if k == 0 {
        (x % 256) as u8
    } else if k == 1 {
        ((x / 256) % 256) as u8
    } else if k == 2 {
        ((x / 65536) % 256) as u8
    } else {
        (x / 16777216) as u8
    }
}

/// The four bytes of a 32-bit integer.
pub open spec fn u32_bytes(x: u32, e: Endian) -> Seq<u8> {
    match e {
        Endian::Little => seq![byte_of(x, 0), byte_of(x, 1), byte_of(x, 2), byte_of(x, 3)],
        Endian::Big => seq![byte_of(x, 3), byte_of(x, 2), byte_of(x, 1), byte_of(x, 0)],
    }
}

/// The 32-bit integer that four bytes hold.
#[verifier::opaque]
pub open spec fn u32_of(b: Seq<u8>, e: Endian) -> u32 {
    match e {
        Endian::Little => (b[0] + b[1] * 256 + b[2] * 65536 + b[3] * 16777216) as u32,
        Endian::Big => (b[3] + b[2] * 256 + b[1] * 65536 + b[0] * 16777216) as u32,
    }
}

/// The less significant half of a 64-bit integer.
#[verifier::opaque]
pub open spec fn low_half(x: u64) -> u32 {
    (x % 0x1_0000_0000) as u32
}

/// The more significant half of a 64-bit integer.
#[verifier::opaque]
pub open spec fn high_half(x: u64) -> u32 {
    (x / 0x1_0000_0000) as u32
}

/// The eight bytes of a 64-bit integer.
pub open spec fn u64_bytes(x: u64, e: Endian) -> Seq<u8> {
    match e {
        Endian::Little => u32_bytes(low_half(x), e) + u32_bytes(high_half(x), e),
        Endian::Big => u32_bytes(high_half(x), e) + u32_bytes(low_half(x), e),
    }
}

/// The 64-bit integer that eight bytes hold.
#[verifier::opaque]
pub open spec fn u64_of(b: Seq<u8>, e: Endian) -> u64 {
    let first = u32_of(b.subrange(0, 4), e);
    let second = u32_of(b.subrange(4, 8), e);
    match e {
        Endian::Little => (first + second * 0x1_0000_0000) as u64,
        Endian::Big => (second + first * 0x1_0000_0000) as u64,
    }
}

/// The 32-bit integer at a place in a buffer.
pub open spec fn u32_at(s: Seq<u8>, at: int, e: Endian) -> u32 {
    u32_of(s.subrange(at, at + 4), e)
}

/// The 64-bit integer at a place in a buffer.
pub open spec fn u64_at(s: Seq<u8>, at: int, e: Endian) -> u64 {
    u64_of(s.subrange(at, at + 8), e)
}

/// A run of zero bytes.
pub open spec fn zeros(n: int) -> Seq<u8> {
    Seq::new(n as nat, |i: int| 0u8)
}

/// A name field: the first 31 bytes of the label, then zero bytes up to the
/// width of the field. A longer label loses its end, with no error.
pub open spec fn name_field(label: Seq<u8>) -> Seq<u8> {
    Seq::new(
        NAME_SIZE as nat,
        |i: int|
            if i < label.len() && i < NAME_SIZE - 1 {
                label[i]
            } else {
                0u8
            },
    )
}

/// The text in a field ends at `k`: at its first zero byte, or at its end.
pub open spec fn ends_at(field: Seq<u8>, k: int) -> bool {
    &&& 0 <= k <= field.len()
    &&& forall|j: int| 0 <= j < k ==> field[j] != 0
    &&& k < field.len() ==> field[k] == 0
}

/// The text that a field holds: its bytes before the first zero byte.
pub open spec fn text_of(field: Seq<u8>) -> Seq<u8> {
    field.subrange(0, choose|k: int| ends_at(field, k))
}

/// A 32-bit integer takes four bytes, and is read back from them.
#[verifier::rlimit(50)]
pub proof fn lemma_u32_round_trip(x: u32, e: Endian)
    ensures
        u32_bytes(x, e).len() == 4,
        u32_of(u32_bytes(x, e), e) == x,
{
    reveal(byte_of);
    reveal(u32_of);
    let b0 = x % 256;
    let b1 = (x / 256) % 256;
    let b2 = (x / 65536) % 256;
    let b3 = x / 16777216;
    assert(b0 + b1 * 256 + b2 * 65536 + b3 * 16777216 == x);
    assert(byte_of(x, 0) == b0 && byte_of(x, 1) == b1 && byte_of(x, 2) == b2 && byte_of(x, 3) == b3);
}

/// A 64-bit integer takes eight bytes, and is read back from them.
pub proof fn lemma_u64_round_trip(x: u64, e: Endian)
    ensures
        u64_bytes(x, e).len() == 8,
        u64_of(u64_bytes(x, e), e) == x,
{
    reveal(low_half);
    reveal(high_half);
    reveal(u64_of);
    let low = low_half(x);
    let high = high_half(x);
    let b = u64_bytes(x, e);
    lemma_u32_round_trip(low, e);
    lemma_u32_round_trip(high, e);
    match e {
        Endian::Little => {
            assert(b.subrange(0, 4) =~= u32_bytes(low, e));
            assert(b.subrange(4, 8) =~= u32_bytes(high, e));
        },
        Endian::Big => {
            assert(b.subrange(0, 4) =~= u32_bytes(high, e));
            assert(b.subrange(4, 8) =~= u32_bytes(low, e));
        },
    }
}

/// What is written at a place is read there, whatever stands around it.
pub proof fn lemma_u32_at(before: Seq<u8>, x: u32, e: Endian, after: Seq<u8>)
    ensures
        u32_at(before + u32_bytes(x, e) + after, before.len() as int, e) == x,
{
    lemma_u32_round_trip(x, e);
    let s = before + u32_bytes(x, e) + after;
    assert(s.subrange(before.len() as int, before.len() as int + 4) =~= u32_bytes(x, e));
}

/// What is written at a place is read there, whatever stands around it.
pub proof fn lemma_u64_at(before: Seq<u8>, x: u64, e: Endian, after: Seq<u8>)
    ensures
        u64_at(before + u64_bytes(x, e) + after, before.len() as int, e) == x,
{
    lemma_u64_round_trip(x, e);
    let s = before + u64_bytes(x, e) + after;
    assert(s.subrange(before.len() as int, before.len() as int + 8) =~= u64_bytes(x, e));
}

/// A read inside a piece of a buffer sees the piece alone.
pub proof fn lemma_u32_at_within(before: Seq<u8>, piece: Seq<u8>, after: Seq<u8>, at: int, e: Endian)
    requires
        0 <= at,
        at + 4 <= piece.len(),
    ensures
        u32_at(before + piece + after, before.len() + at, e) == u32_at(piece, at, e),
{
    assert((before + piece + after).subrange(before.len() + at, before.len() + at + 4) =~= piece.subrange(
        at,
        at + 4,
    ));
}

/// A read inside a piece of a buffer sees the piece alone.
pub proof fn lemma_u64_at_within(before: Seq<u8>, piece: Seq<u8>, after: Seq<u8>, at: int, e: Endian)
    requires
        0 <= at,
        at + 8 <= piece.len(),
    ensures
        u64_at(before + piece + after, before.len() + at, e) == u64_at(piece, at, e),
{
    assert((before + piece + after).subrange(before.len() + at, before.len() + at + 8) =~= piece.subrange(
        at,
        at + 8,
    ));
}

/// A field's text ends at one place only.
pub proof fn lemma_ends_at_unique(field: Seq<u8>, a: int, b: int)
    requires
        ends_at(field, a),
        ends_at(field, b),
    ensures
        a == b,
{
}

/// A label of at most 31 bytes, none of them zero, is read back whole.
pub proof fn lemma_name_round_trip(label: Seq<u8>)
    requires
        label.len() < NAME_SIZE,
        forall|i: int| 0 <= i < label.len() ==> label[i] != 0,
    ensures
        text_of(name_field(label)) == label,
{
    let field = name_field(label);
    assert(ends_at(field, label.len() as int));
    let k = choose|k: int| ends_at(field, k);
    lemma_ends_at_unique(field, k, label.len() as int);
    assert(field.subrange(0, k) =~= label);
}

/// A label that is too long is cut to 31 bytes.
pub proof fn lemma_name_truncates(label: Seq<u8>)
    requires
        label.len() >= NAME_SIZE,
        forall|i: int| 0 <= i < label.len() ==> label[i] != 0,
    ensures
        text_of(name_field(label)) == label.subrange(0, NAME_SIZE - 1),
{
    let field = name_field(label);
    assert(ends_at(field, NAME_SIZE - 1));
    let k = choose|k: int| ends_at(field, k);
    lemma_ends_at_unique(field, k, NAME_SIZE - 1);
    assert(field.subrange(0, k) =~= label.subrange(0, NAME_SIZE - 1));
}

/// Appends a 32-bit integer.
pub fn put_u32(out: &mut Vec<u8>, x: u32, e: Endian)
    ensures
        final(out)@ == old(out)@ + u32_bytes(x, e),
{
    proof {
        reveal(byte_of);
    }
    let b0 = (x % 256) as u8;
    let b1 = ((x / 256) % 256) as u8;
    let b2 = ((x / 65536) % 256) as u8;
    let b3 = (x / 16777216) as u8;
    match e {
        Endian::Little => {
            out.push(b0);
            out.push(b1);
            out.push(b2);
            out.push(b3);
        },
        Endian::Big => {
            out.push(b3);
            out.push(b2);
            out.push(b1);
            out.push(b0);
        },
    }
    assert(out@ =~= old(out)@ + u32_bytes(x, e));
}

/// Appends a 64-bit integer.
pub fn put_u64(out: &mut Vec<u8>, x: u64, e: Endian)
    ensures
        final(out)@ == old(out)@ + u64_bytes(x, e),
{
    proof {
        reveal(low_half);
        reveal(high_half);
    }
    let low = (x % 0x1_0000_0000) as u32;
    let high = (x / 0x1_0000_0000) as u32;
    match e {
        Endian::Little => {
            put_u32(out, low, e);
            put_u32(out, high, e);
        },
        Endian::Big => {
            put_u32(out, high, e);
            put_u32(out, low, e);
        },
    }
    assert(out@ =~= old(out)@ + u64_bytes(x, e));
}

/// Appends zero bytes.
pub fn put_zeros(out: &mut Vec<u8>, n: usize)
    ensures
        final(out)@ == old(out)@ + zeros(n as int),
{
    let mut i: usize = 0;
    while i < n
        invariant
            i <= n,
            out@ == old(out)@ + zeros(i as int),
        decreases n - i,
    {
        out.push(0u8);
        i = i + 1;
        assert(out@ =~= old(out)@ + zeros(i as int));
    }
}

/// Appends a name field that holds a label.
pub fn put_name(out: &mut Vec<u8>, label: &[u8])
    ensures
        final(out)@ == old(out)@ + name_field(label@),
{
    let mut i: usize = 0;
    while i < NAME_SIZE
        invariant
            i <= NAME_SIZE,
            out@ == old(out)@ + name_field(label@).subrange(0, i as int),
        decreases NAME_SIZE - i,
    {
        let b: u8 = if i < label.len() && i < NAME_SIZE - 1 {
            label[i]
        } else {
            0u8
        };
        out.push(b);
        i = i + 1;
        assert(out@ =~= old(out)@ + name_field(label@).subrange(0, i as int));
    }
    assert(name_field(label@).subrange(0, NAME_SIZE as int) =~= name_field(label@));
}

/// Reads the 32-bit integer at a place in a buffer.
pub fn get_u32(buf: &[u8], at: usize, e: Endian) -> (r: u32)
    requires
        at + 4 <= buf@.len(),
    ensures
        r == u32_at(buf@, at as int, e),
{
    proof {
        reveal(u32_of);
    }
    let b0 = buf[at] as u32;
    let b1 = buf[at + 1] as u32;
    let b2 = buf[at + 2] as u32;
    let b3 = buf[at + 3] as u32;
    match e {
        Endian::Little => b0 + b1 * 256 + b2 * 65536 + b3 * 16777216,
        Endian::Big => b3 + b2 * 256 + b1 * 65536 + b0 * 16777216,
    }
}

/// Reads the 64-bit integer at a place in a buffer.
pub fn get_u64(buf: &[u8], at: usize, e: Endian) -> (r: u64)
    requires
        at + 8 <= buf@.len(),
    ensures
        r == u64_at(buf@, at as int, e),
{
    let size = buf.len();
    assert(at + 8 <= size);
    let first = get_u32(buf, at, e) as u64;
    let second = get_u32(buf, at + 4, e) as u64;
    proof {
        reveal(u64_of);
        let b = buf@.subrange(at as int, at + 8);
        assert(b.subrange(0, 4) =~= buf@.subrange(at as int, at + 4));
        assert(b.subrange(4, 8) =~= buf@.subrange(at + 4, at + 8));
    }
    match e {
        Endian::Little => first + second * 0x1_0000_0000,
        Endian::Big => second + first * 0x1_0000_0000,
    }
}

/// Reads the text of the name field at a place in a buffer.
pub fn get_name(buf: &[u8], at: usize) -> (r: Vec<u8>)
    requires
        at + NAME_SIZE <= buf@.len(),
    ensures
        r@ == text_of(buf@.subrange(at as int, at + NAME_SIZE)),
{
    let ghost field = buf@.subrange(at as int, at + NAME_SIZE);
    let size = buf.len();
    assert(at + NAME_SIZE <= size);
    let mut out: Vec<u8> = Vec::new();
    let mut i: usize = 0;
    while i < NAME_SIZE && buf[at + i] != 0
        invariant
            i <= NAME_SIZE,
            at + NAME_SIZE <= buf@.len(),
            buf@.len() == size,
            field == buf@.subrange(at as int, at + NAME_SIZE),
            out@ == field.subrange(0, i as int),
            forall|j: int| 0 <= j < i ==> field[j] != 0,
        decreases NAME_SIZE - i,
    {
        out.push(buf[at + i]);
        i = i + 1;
        assert(out@ =~= field.subrange(0, i as int));
    }
    proof {
        assert(ends_at(field, i as int));
        let k = choose|k: int| ends_at(field, k);
        lemma_ends_at_unique(field, k, i as int);
    }
    out
}

/// The bytes of a run of 32-bit integers.
pub open spec fn u32s_bytes(xs: Seq<u32>, e: Endian) -> Seq<u8>
    decreases xs.len(),
{
    if xs.len() == 0 {
        Seq::empty()
    } else {
        u32s_bytes(xs.drop_last(), e) + u32_bytes(xs.last(), e)
    }
}

/// A run of 32-bit integers takes four bytes for each.
pub proof fn lemma_u32s_len(xs: Seq<u32>, e: Endian)
    ensures
        u32s_bytes(xs, e).len() == 4 * xs.len(),
    decreases xs.len(),
{
    if xs.len() > 0 {
        lemma_u32s_len(xs.drop_last(), e);
    }
}

/// Each integer of a run is read at its place.
pub proof fn lemma_u32s_at(xs: Seq<u32>, e: Endian, i: int)
    requires
        0 <= i < xs.len(),
    ensures
        u32_at(u32s_bytes(xs, e), 4 * i, e) == xs[i],
    decreases xs.len(),
{
    let front = u32s_bytes(xs.drop_last(), e);
    let none = Seq::<u8>::empty();
    lemma_u32s_len(xs.drop_last(), e);
    if i < xs.len() - 1 {
        lemma_u32s_at(xs.drop_last(), e, i);
        assert(u32s_bytes(xs, e) =~= none + front + u32_bytes(xs.last(), e));
        lemma_u32_at_within(none, front, u32_bytes(xs.last(), e), 4 * i, e);
    } else {
        assert(u32s_bytes(xs, e) =~= front + u32_bytes(xs.last(), e) + none);
        lemma_u32_at(front, xs.last(), e, none);
    }
}

/// Appends a run of 32-bit integers.
pub fn put_u32s(out: &mut Vec<u8>, xs: &Vec<u32>, e: Endian)
    ensures
        final(out)@ == old(out)@ + u32s_bytes(xs@, e),
{
    let mut i: usize = 0;
    assert(xs@.subrange(0, 0) =~= Seq::<u32>::empty());
    assert(out@ =~= old(out)@ + u32s_bytes(xs@.subrange(0, 0), e));
    while i < xs.len()
        invariant
            i <= xs@.len(),
            out@ == old(out)@ + u32s_bytes(xs@.subrange(0, i as int), e),
        decreases xs@.len() - i,
    {
        put_u32(out, xs[i], e);
        proof {
            let next = xs@.subrange(0, i + 1);
            assert(next.drop_last() =~= xs@.subrange(0, i as int));
            assert(out@ =~= old(out)@ + u32s_bytes(next, e));
        }
        i = i + 1;
    }
    assert(xs@.subrange(0, i as int) =~= xs@);
}

/// Copies a run of bytes out of a buffer.
pub fn get_bytes(buf: &[u8], at: usize, n: usize) -> (r: Vec<u8>)
    requires
        at + n <= buf@.len(),
    ensures
        r@ == buf@.subrange(at as int, at + n),
{
    let size = buf.len();
    assert(at + n <= size);
    let mut out: Vec<u8> = Vec::new();
    let mut i: usize = 0;
    while i < n
        invariant
            i <= n,
            at + n <= buf@.len(),
            buf@.len() == size,
            out@ == buf@.subrange(at as int, at + i),
        decreases n - i,
    {
        out.push(buf[at + i]);
        assert(out@ =~= buf@.subrange(at as int, at + i + 1));
        i = i + 1;
    }
    out
}

} // verus!
