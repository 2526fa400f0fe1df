//! The byte-level vocabulary of an image: fixed-width integers in either byte
//! order, strings closed by a zero byte, and zero padding up to a boundary.
//!
//! Every writer appends to a growable buffer and says exactly which bytes it
//! appended; every reader is bounds-checked and yields `None` rather than
//! look past the end of the buffer.

use vstd::prelude::*;
use vstd::slice::{slice_subrange, slice_to_vec};
use vstd::utf8::{
    decode_utf8, encode_scalar, encode_utf8, encode_utf8_decode_utf8, encode_utf8_valid_utf8,
    valid_utf8,
};

verus! {

/// The order in which the bytes of an integer field are stored.
#[derive(Debug, Clone, Copy, PartialEq, Eq, Structural)]
pub enum ByteOrder {
    /// Least significant byte first.
    Little,
    /// Most significant byte first.
    Big,
}

impl ByteOrder {
    /// The order in which this machine stores its integers.
    pub(crate) fn native() -> ByteOrder {
        let probe: [u8; 4] = native_bytes(1);
        ByteOrder::shown_by(&probe)
    }

    /// The order that the four bytes of the number one show: least byte
    /// first where the one comes first, and else most byte first.
    pub open spec fn of_one(probe: Seq<u8>) -> ByteOrder {
        if probe[0] == 1 {
            ByteOrder::Little
        } else {
            ByteOrder::Big
        }
    }

    /// The order in which `probe`, the four bytes that some machine stores
    /// for the number one, is laid down.
    pub fn shown_by(probe: &[u8; 4]) -> (order: ByteOrder)
        ensures
            order == ByteOrder::of_one(probe@),
    {
        if probe[0] == 1 {
            ByteOrder::Little
        } else {
            ByteOrder::Big
        }
    }

    /// The bytes of the number one show the order in which they were laid
    /// down, whichever of the two it was.
    pub proof fn lemma_one_shows_its_order(order: ByteOrder)
        ensures
            ByteOrder::of_one(u32_bytes(1, order)) == order,
    {
        reveal(u32_bytes);
    }
}

/// `u32::to_ne_bytes`: the four bytes of `x` as this machine stores them,
/// which is in one of the two orders.
#[verifier::external_body]
fn native_bytes(x: u32) -> (r: [u8; 4])
    ensures
        r@ == u32_bytes(x, ByteOrder::Little) || r@ == u32_bytes(x, ByteOrder::Big),
{
    x.to_ne_bytes()
}

/// The four bytes that store `x` in the given order.
#[verifier::opaque]
pub open spec fn u32_bytes(x: u32, order: ByteOrder) -> Seq<u8> {
    let b0 = (x % 0x100) as u8;
    let b1 = (x / 0x100 % 0x100) as u8;
    let b2 = (x / 0x1_0000 % 0x100) as u8;
    let b3 = (x / 0x100_0000 % 0x100) as u8;
    match order {
        ByteOrder::Little => seq![b0, b1, b2, b3],
        ByteOrder::Big => seq![b3, b2, b1, b0],
    }
}

/// The number that the first four bytes of `b` store in the given order.
#[verifier::opaque]
pub open spec fn u32_value(b: Seq<u8>, order: ByteOrder) -> u32
    recommends
        b.len() == 4,
{
    match order {
        ByteOrder::Little => (b[0] + 0x100 * b[1] + 0x1_0000 * b[2] + 0x100_0000 * b[3]) as u32,
        ByteOrder::Big => (b[3] + 0x100 * b[2] + 0x1_0000 * b[1] + 0x100_0000 * b[0]) as u32,
    }
}

/// The eight bytes that store `x` in the given order.
#[verifier::opaque]
pub open spec fn u64_bytes(x: u64, order: ByteOrder) -> Seq<u8> {
    let b0 = (x % 0x100) as u8;
    let b1 = (x / 0x100 % 0x100) as u8;
    let b2 = (x / 0x1_0000 % 0x100) as u8;
    let b3 = (x / 0x100_0000 % 0x100) as u8;
    let b4 = (x / 0x1_0000_0000 % 0x100) as u8;
    let b5 = (x / 0x100_0000_0000 % 0x100) as u8;
    let b6 = (x / 0x1_0000_0000_0000 % 0x100) as u8;
    let b7 = (x / 0x100_0000_0000_0000 % 0x100) as u8;
    match order {
        ByteOrder::Little => seq![b0, b1, b2, b3, b4, b5, b6, b7],
        ByteOrder::Big => seq![b7, b6, b5, b4, b3, b2, b1, b0],
    }
}

/// The number that the first eight bytes of `b` store in the given order.
#[verifier::opaque]
pub open spec fn u64_value(b: Seq<u8>, order: ByteOrder) -> u64
    recommends
        b.len() == 8,
{
    match order {
        ByteOrder::Little => (b[0] + 0x100 * b[1] + 0x1_0000 * b[2] + 0x100_0000 * b[3]
            + 0x1_0000_0000 * b[4] + 0x100_0000_0000 * b[5] + 0x1_0000_0000_0000 * b[6]
            + 0x100_0000_0000_0000 * b[7]) as u64,
        ByteOrder::Big => (b[7] + 0x100 * b[6] + 0x1_0000 * b[5] + 0x100_0000 * b[4]
            + 0x1_0000_0000 * b[3] + 0x100_0000_0000 * b[2] + 0x1_0000_0000_0000 * b[1]
            + 0x100_0000_0000_0000 * b[0]) as u64,
    }
}

/// `n` zero bytes.
pub open spec fn zeros(n: nat) -> Seq<u8> {
    Seq::new(n, |i: int| 0u8)
}

/// How many bytes are missing from `len` to the next multiple of `align`;
/// none when `len` is a multiple already.
pub open spec fn padding(len: int, align: int) -> nat {
    ((align - len % align) % align) as nat
}

/// The least multiple of `align` that is not below `offset`.
pub open spec fn align_up(offset: int, align: int) -> int {
    offset + padding(offset, align)
}

/// The bytes of a string field: the string in UTF-8, closed by one zero byte.
#[verifier::opaque]
pub open spec fn terminated(s: Seq<char>) -> Seq<u8> {
    encode_utf8(s).push(0u8)
}

/// The index of the first zero byte at or after `at`, or the length of
/// `bytes` where there is none.
pub open spec fn first_nul(bytes: Seq<u8>, at: int) -> int
    decreases bytes.len() - at,
{
    if at < 0 || at >= bytes.len() {
        bytes.len() as int
    } else if bytes[at] == 0 {
        at
    } else {
        first_nul(bytes, at + 1)
    }
}

/// The 32-bit field at offset `at`, if all four of its bytes lie inside `bytes`.
pub open spec fn u32_at(bytes: Seq<u8>, at: int, order: ByteOrder) -> Option<u32> {
    if 0 <= at && at + 4 <= bytes.len() {
        Some(u32_value(bytes.subrange(at, at + 4), order))
    } else {
        None
    }
}

/// The 64-bit field at offset `at`, if all eight of its bytes lie inside `bytes`.
pub open spec fn u64_at(bytes: Seq<u8>, at: int, order: ByteOrder) -> Option<u64> {
    if 0 <= at && at + 8 <= bytes.len() {
        Some(u64_value(bytes.subrange(at, at + 8), order))
    } else {
        None
    }
}

/// The string field at offset `at`: the bytes from `at` up to the first zero
/// byte, read as UTF-8. There is none where no zero byte follows inside
/// `bytes`, or where the bytes before it are not UTF-8.
#[verifier::opaque]
pub open spec fn string_at(bytes: Seq<u8>, at: int) -> Option<Seq<char>> {
    let end = first_nul(bytes, at);
    if 0 <= at && end < bytes.len() && valid_utf8(bytes.subrange(at, end)) {
        Some(decode_utf8(bytes.subrange(at, end)))
    } else {
        None
    }
}

/// The offset just behind a string field that starts at `at` and holds `s`.
#[verifier::opaque]
pub open spec fn string_end(at: int, s: Seq<char>) -> int {
    at + encode_utf8(s).len() + 1
}

/// `first_nul` finds a zero byte, the first one from `at` on, or runs to the end.
pub proof fn lemma_first_nul(bytes: Seq<u8>, at: int)
    requires
        0 <= at <= bytes.len(),
    ensures
        at <= first_nul(bytes, at) <= bytes.len(),
        first_nul(bytes, at) < bytes.len() ==> bytes[first_nul(bytes, at)] == 0,
        forall|i: int| at <= i < first_nul(bytes, at) ==> bytes[i] != 0,
    decreases bytes.len() - at,
{
    if at < bytes.len() && bytes[at] != 0 {
        lemma_first_nul(bytes, at + 1);
    }
}

/// `field` stands in `bytes` at offset `at`.
pub open spec fn placed(bytes: Seq<u8>, at: int, field: Seq<u8>) -> bool {
    0 <= at && at + field.len() <= bytes.len() && bytes.subrange(at, at + field.len()) == field
}

/// No character of `s` is the one that the closing zero byte encodes.
pub open spec fn no_nul(s: Seq<char>) -> bool {
    forall|i: int| 0 <= i < s.len() ==> s[i] as u32 != 0
}

/// A 32-bit number is read back from its four bytes, in either order.
pub proof fn lemma_u32_round_trip(x: u32, order: ByteOrder)
    ensures
        u32_bytes(x, order).len() == 4,
        u32_value(u32_bytes(x, order), order) == x,
{
    reveal(u32_bytes);
    reveal(u32_value);
    let b = u32_bytes(x, ByteOrder::Little);
    assert(x == (x % 0x100) + 0x100 * (x / 0x100 % 0x100) + 0x1_0000 * (x / 0x1_0000 % 0x100)
        + 0x100_0000 * (x / 0x100_0000 % 0x100)) by (bit_vector);
    assert(b[0] == x % 0x100 && b[1] == x / 0x100 % 0x100 && b[2] == x / 0x1_0000 % 0x100 && b[3]
        == x / 0x100_0000 % 0x100);
    assert(u32_value(b, ByteOrder::Little) == x);
    let c = u32_bytes(x, ByteOrder::Big);
    assert(c[3] == b[0] && c[2] == b[1] && c[1] == b[2] && c[0] == b[3]);
    assert(u32_value(c, ByteOrder::Big) == x);
}

/// A 64-bit number is read back from its eight bytes, in either order.
pub proof fn lemma_u64_round_trip(x: u64, order: ByteOrder)
    ensures
        u64_bytes(x, order).len() == 8,
        u64_value(u64_bytes(x, order), order) == x,
{
    reveal(u64_bytes);
    reveal(u64_value);
    let b = u64_bytes(x, ByteOrder::Little);
    assert(x == (x % 0x100) + 0x100 * (x / 0x100 % 0x100) + 0x1_0000 * (x / 0x1_0000 % 0x100)
        + 0x100_0000 * (x / 0x100_0000 % 0x100) + 0x1_0000_0000 * (x / 0x1_0000_0000 % 0x100)
        + 0x100_0000_0000 * (x / 0x100_0000_0000 % 0x100) + 0x1_0000_0000_0000 * (x
        / 0x1_0000_0000_0000 % 0x100) + 0x100_0000_0000_0000 * (x / 0x100_0000_0000_0000 % 0x100))
        by (bit_vector);
    assert(b[0] == x % 0x100 && b[1] == x / 0x100 % 0x100 && b[2] == x / 0x1_0000 % 0x100 && b[3]
        == x / 0x100_0000 % 0x100);
    assert(b[4] == x / 0x1_0000_0000 % 0x100 && b[5] == x / 0x100_0000_0000 % 0x100 && b[6] == x
        / 0x1_0000_0000_0000 % 0x100 && b[7] == x / 0x100_0000_0000_0000 % 0x100);
    assert(u64_value(b, ByteOrder::Little) == x);
    let c = u64_bytes(x, ByteOrder::Big);
    assert(c[7] == b[0] && c[6] == b[1] && c[5] == b[2] && c[4] == b[3]);
    assert(c[3] == b[4] && c[2] == b[5] && c[1] == b[6] && c[0] == b[7]);
    assert(u64_value(c, ByteOrder::Big) == x);
}

/// Where the bytes of a 32-bit number stand, that number is read.
pub proof fn lemma_u32_at_placed(bytes: Seq<u8>, at: int, x: u32, order: ByteOrder)
    requires
        placed(bytes, at, u32_bytes(x, order)),
    ensures
        u32_at(bytes, at, order) == Some(x),
{
    lemma_u32_round_trip(x, order);
}

/// Where the bytes of a 64-bit number stand, that number is read.
pub proof fn lemma_u64_at_placed(bytes: Seq<u8>, at: int, x: u64, order: ByteOrder)
    requires
        placed(bytes, at, u64_bytes(x, order)),
    ensures
        u64_at(bytes, at, order) == Some(x),
{
    lemma_u64_round_trip(x, order);
}

/// The UTF-8 bytes of a character other than the zero character are not zero.
proof fn lemma_scalar_has_no_nul(c: u32)
    requires
        c != 0,
    ensures
        forall|j: int| 0 <= j < encode_scalar(c).len() ==> encode_scalar(c)[j] != 0,
{
    assert(c != 0 && c <= 0x7F ==> (c & 0x7F) as u8 != 0) by (bit_vector);
    assert(0xC0u8 | ((c >> 6) & 0x1F) as u8 != 0) by (bit_vector);
    assert(0xE0u8 | ((c >> 12) & 0x0F) as u8 != 0) by (bit_vector);
    assert(0xF0u8 | ((c >> 18) & 0x7) as u8 != 0) by (bit_vector);
    assert(0x80u8 | (c & 0x3F) as u8 != 0) by (bit_vector);
    assert(0x80u8 | ((c >> 6) & 0x3F) as u8 != 0) by (bit_vector);
    assert(0x80u8 | ((c >> 12) & 0x3F) as u8 != 0) by (bit_vector);
}

/// The UTF-8 bytes of a string without the zero character hold no zero byte.
pub proof fn lemma_encoding_has_no_nul(s: Seq<char>)
    requires
        no_nul(s),
    ensures
        forall|j: int| 0 <= j < encode_utf8(s).len() ==> encode_utf8(s)[j] != 0,
    decreases s.len(),
{
    if s.len() > 0 {
        let first = encode_scalar(s[0] as u32);
        let rest = encode_utf8(s.drop_first());
        lemma_scalar_has_no_nul(s[0] as u32);
        assert(no_nul(s.drop_first())) by {
            assert forall|i: int| 0 <= i < s.drop_first().len() implies s.drop_first()[i] as u32
                != 0 by {
                assert(s.drop_first()[i] == s[i + 1]);
            }
        }
        lemma_encoding_has_no_nul(s.drop_first());
        assert forall|j: int| 0 <= j < encode_utf8(s).len() implies encode_utf8(s)[j] != 0 by {
            if j < first.len() {
                assert(encode_utf8(s)[j] == first[j]);
            } else {
                assert(encode_utf8(s)[j] == rest[j - first.len()]);
            }
        }
    }
}

/// Where the field of a string without the zero character stands, that
/// string is read, and the field ends where the reader says.
pub proof fn lemma_string_at_placed(bytes: Seq<u8>, at: int, s: Seq<char>)
    requires
        no_nul(s),
        placed(bytes, at, terminated(s)),
    ensures
        string_at(bytes, at) == Some(s),
        string_end(at, s) == at + terminated(s).len(),
{
    reveal(terminated);
    reveal(string_at);
    reveal(string_end);
    let encoded = encode_utf8(s);
    let end = at + encoded.len();
    lemma_encoding_has_no_nul(s);
    lemma_first_nul(bytes, at);
    assert forall|i: int| at <= i < end implies bytes[i] != 0 by {
        assert(bytes[i] == bytes.subrange(at, at + terminated(s).len())[i - at]);
        assert(terminated(s)[i - at] == encoded[i - at]);
    }
    assert(bytes[end] == 0) by {
        assert(bytes[end] == bytes.subrange(at, at + terminated(s).len())[end - at]);
    }
    assert(first_nul(bytes, at) == end);
    assert(bytes.subrange(at, end) =~= encoded) by {
        assert forall|i: int| 0 <= i < encoded.len() implies bytes.subrange(at, end)[i]
            == encoded[i] by {
            assert(bytes[at + i] == bytes.subrange(at, at + terminated(s).len())[i]);
            assert(terminated(s)[i] == encoded[i]);
        }
    }
    encode_utf8_valid_utf8(s);
    encode_utf8_decode_utf8(s);
}

/// Appends the four bytes of `value` in the given order.
pub fn push_u32(buf: &mut Vec<u8>, value: u32, order: ByteOrder)
    ensures
        final(buf)@ == old(buf)@ + u32_bytes(value, order),
{
    let b0: u8 = (value % 0x100) as u8;
    let b1: u8 = (value / 0x100 % 0x100) as u8;
    let b2: u8 = (value / 0x1_0000 % 0x100) as u8;
    let b3: u8 = (value / 0x100_0000 % 0x100) as u8;
    match order {
        ByteOrder::Little => {
            buf.push(b0);
            buf.push(b1);
            buf.push(b2);
            buf.push(b3);
        },
        ByteOrder::Big => {
            buf.push(b3);
            buf.push(b2);
            buf.push(b1);
            buf.push(b0);
        },
    }
    proof {
        reveal(u32_bytes);
    }
    assert(buf@ =~= old(buf)@ + u32_bytes(value, order));
}

/// Appends the eight bytes of `value` in the given order.
pub fn push_u64(buf: &mut Vec<u8>, value: u64, order: ByteOrder)
    ensures
        final(buf)@ == old(buf)@ + u64_bytes(value, order),
{
    let b0: u8 = (value % 0x100) as u8;
    let b1: u8 = (value / 0x100 % 0x100) as u8;
    let b2: u8 = (value / 0x1_0000 % 0x100) as u8;
    let b3: u8 = (value / 0x100_0000 % 0x100) as u8;
    let b4: u8 = (value / 0x1_0000_0000 % 0x100) as u8;
    let b5: u8 = (value / 0x100_0000_0000 % 0x100) as u8;
    let b6: u8 = (value / 0x1_0000_0000_0000 % 0x100) as u8;
    let b7: u8 = (value / 0x100_0000_0000_0000 % 0x100) as u8;
    match order {
        ByteOrder::Little => {
            buf.push(b0);
            buf.push(b1);
            buf.push(b2);
            buf.push(b3);
            buf.push(b4);
            buf.push(b5);
            buf.push(b6);
            buf.push(b7);
        },
        ByteOrder::Big => {
            buf.push(b7);
            buf.push(b6);
            buf.push(b5);
            buf.push(b4);
            buf.push(b3);
            buf.push(b2);
            buf.push(b1);
            buf.push(b0);
        },
    }
    proof {
        reveal(u64_bytes);
    }
    assert(buf@ =~= old(buf)@ + u64_bytes(value, order));
}

/// Appends a string field: the bytes of `s`, then one zero byte.
pub fn push_string(buf: &mut Vec<u8>, s: &str)
    ensures
        final(buf)@ == old(buf)@ + terminated(s@),
{
    push_bytes(buf, s.as_bytes());
    buf.push(0u8);
    proof {
        reveal(terminated);
    }
    assert(buf@ =~= old(buf)@ + terminated(s@));
}

/// Appends a copy of `bytes`.
pub fn push_bytes(buf: &mut Vec<u8>, bytes: &[u8])
    ensures
        final(buf)@ == old(buf)@ + bytes@,
{
    let mut i: usize = 0;
    while i < bytes.len()
        invariant
            i <= bytes.len(),
            buf@ == old(buf)@ + bytes@.subrange(0, i as int),
        decreases bytes.len() - i,
    {
        buf.push(bytes[i]);
        i += 1;
        assert(buf@ =~= old(buf)@ + bytes@.subrange(0, i as int));
    }
    assert(bytes@.subrange(0, i as int) =~= bytes@);
}

/// Appends `count` zero bytes.
fn push_zeros(buf: &mut Vec<u8>, count: usize)
    ensures
        final(buf)@ == old(buf)@ + zeros(count as nat),
{
    let mut i: usize = 0;
    while i < count
        invariant
            i <= count,
            buf@ == old(buf)@ + zeros(i as nat),
        decreases count - i,
    {
        buf.push(0u8);
        i += 1;
        assert(buf@ =~= old(buf)@ + zeros(i as nat));
    }
}

/// Appends zero bytes until the length of the buffer is a multiple of four.
pub fn pad_to_u32(buf: &mut Vec<u8>)
    ensures
        final(buf)@ == old(buf)@ + zeros(padding(old(buf)@.len() as int, 4)),
        final(buf)@.len() == align_up(old(buf)@.len() as int, 4),
        final(buf)@.len() % 4 == 0,
{
    let rem: usize = buf.len() % 4;
    if rem != 0 {
        push_zeros(buf, 4 - rem);
    } else {
        assert(buf@ =~= old(buf)@ + zeros(0));
    }
}

/// Appends zero bytes until the length of the buffer is a multiple of eight.
pub fn pad_to_u64(buf: &mut Vec<u8>)
    ensures
        final(buf)@ == old(buf)@ + zeros(padding(old(buf)@.len() as int, 8)),
        final(buf)@.len() == align_up(old(buf)@.len() as int, 8),
        final(buf)@.len() % 8 == 0,
{
    let rem: usize = buf.len() % 8;
    if rem != 0 {
        push_zeros(buf, 8 - rem);
    } else {
        assert(buf@ =~= old(buf)@ + zeros(0));
    }
}

/// The least multiple of four that is not below `offset`, or `None` where
/// that multiple does not fit the offset type.
pub fn align_to_next_u32(offset: usize) -> (r: Option<usize>)
    ensures
        match r {
            Some(a) => a == align_up(offset as int, 4),
            None => align_up(offset as int, 4) > usize::MAX,
        },
{
    let rem: usize = offset % 4;
    if rem == 0 {
        Some(offset)
    } else {
        offset.checked_add(4 - rem)
    }
}

/// The least multiple of eight that is not below `offset`, or `None` where
/// that multiple does not fit the offset type.
pub fn align_to_next_u64(offset: usize) -> (r: Option<usize>)
    ensures
        match r {
            Some(a) => a == align_up(offset as int, 8),
            None => align_up(offset as int, 8) > usize::MAX,
        },
{
    let rem: usize = offset % 8;
    if rem == 0 {
        Some(offset)
    } else {
        offset.checked_add(8 - rem)
    }
}

/// Reads the 32-bit field at `offset`; `None` where it would reach past the
/// end of `bytes`.
pub fn read_u32(bytes: &[u8], offset: usize, order: ByteOrder) -> (r: Option<u32>)
    ensures
        r == u32_at(bytes@, offset as int, order),
{
    if bytes.len() < 4 || offset > bytes.len() - 4 {
        return None;
    }
    let b0: u32 = bytes[offset] as u32;
    let b1: u32 = bytes[offset + 1] as u32;
    let b2: u32 = bytes[offset + 2] as u32;
    let b3: u32 = bytes[offset + 3] as u32;
    let value: u32 = match order {
        ByteOrder::Little => b0 + 0x100 * b1 + 0x1_0000 * b2 + 0x100_0000 * b3,
        ByteOrder::Big => b3 + 0x100 * b2 + 0x1_0000 * b1 + 0x100_0000 * b0,
    };
    proof {
        reveal(u32_value);
    }
    Some(value)
}

/// Reads the 64-bit field at `offset`; `None` where it would reach past the
/// end of `bytes`.
pub fn read_u64(bytes: &[u8], offset: usize, order: ByteOrder) -> (r: Option<u64>)
    ensures
        r == u64_at(bytes@, offset as int, order),
{
    if bytes.len() < 8 || offset > bytes.len() - 8 {
        return None;
    }
    let b0: u64 = bytes[offset] as u64;
    let b1: u64 = bytes[offset + 1] as u64;
    let b2: u64 = bytes[offset + 2] as u64;
    let b3: u64 = bytes[offset + 3] as u64;
    let b4: u64 = bytes[offset + 4] as u64;
    let b5: u64 = bytes[offset + 5] as u64;
    let b6: u64 = bytes[offset + 6] as u64;
    let b7: u64 = bytes[offset + 7] as u64;
    let value: u64 = match order {
        ByteOrder::Little => b0 + 0x100 * b1 + 0x1_0000 * b2 + 0x100_0000 * b3 + 0x1_0000_0000 * b4
            + 0x100_0000_0000 * b5 + 0x1_0000_0000_0000 * b6 + 0x100_0000_0000_0000 * b7,
        ByteOrder::Big => b7 + 0x100 * b6 + 0x1_0000 * b5 + 0x100_0000 * b4 + 0x1_0000_0000 * b3
            + 0x100_0000_0000 * b2 + 0x1_0000_0000_0000 * b1 + 0x100_0000_0000_0000 * b0,
    };
    proof {
        reveal(u64_value);
    }
    Some(value)
}

/// `String::from_utf8`: the bytes become a string exactly when they are
/// well-formed UTF-8, and the string then holds the characters they encode.
#[verifier::external_body]
fn string_from_utf8(bytes: Vec<u8>) -> (r: Option<String>)
    ensures
        r is Some <==> valid_utf8(bytes@),
        r matches Some(s) ==> s@ == decode_utf8(bytes@),
{
    match String::from_utf8(bytes) {
        Ok(s) => Some(s),
        Err(_) => None,
    }
}

/// Reads the string field at `offset`, without its closing zero byte; `None`
/// where no zero byte follows before the end of `bytes`, or where the bytes
/// before it are not UTF-8.
pub fn read_string(bytes: &[u8], offset: usize) -> (r: Option<String>)
    ensures
        match r {
            Some(s) => string_at(bytes@, offset as int) == Some(s@),
            None => string_at(bytes@, offset as int) is None,
        },
{
    proof {
        reveal(string_at);
    }
    if offset >= bytes.len() {
        return None;
    }
    let mut end: usize = offset;
    while end < bytes.len() && bytes[end] != 0
        invariant
            offset <= end <= bytes.len(),
            first_nul(bytes@, offset as int) == first_nul(bytes@, end as int),
        decreases bytes.len() - end,
    {
        end += 1;
    }
    if end >= bytes.len() {
        return None;
    }
    let raw: Vec<u8> = slice_to_vec(slice_subrange(bytes, offset, end));
    string_from_utf8(raw)
}

} // verus!
