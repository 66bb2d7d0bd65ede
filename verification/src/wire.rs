//! Numbers and byte strings as they stand in a container: every number with
//! its lowest byte first.

use vstd::bytes::{
    lemma_auto_spec_u32_to_from_le_bytes, lemma_auto_spec_u64_to_from_le_bytes,
    spec_u32_from_le_bytes, spec_u32_to_le_bytes, spec_u64_from_le_bytes, spec_u64_to_le_bytes,
    u32_from_le_bytes, u32_to_le_bytes, u64_from_le_bytes, u64_to_le_bytes,
};
use vstd::prelude::*;
use vstd::slice::slice_subrange;

verus! {

/// The four bytes of an unsigned 32-bit number.
pub open spec fn u32_bytes(value: u32) -> Seq<u8> {
    spec_u32_to_le_bytes(value)
}

/// The four bytes of a signed 32-bit number, in two's complement.
pub open spec fn i32_bytes(value: i32) -> Seq<u8> {
    spec_u32_to_le_bytes(value as u32)
}

/// The eight bytes of an unsigned 64-bit number.
pub open spec fn u64_bytes(value: u64) -> Seq<u8> {
    spec_u64_to_le_bytes(value)
}

/// `count` zero bytes.
pub open spec fn zeros(count: nat) -> Seq<u8> {
    Seq::new(count, |i: int| 0u8)
}

/// The unsigned 32-bit number that stands at `pos`.
pub open spec fn u32_at(bytes: Seq<u8>, pos: int) -> u32 {
    spec_u32_from_le_bytes(bytes.subrange(pos, pos + 4))
}

/// The signed 32-bit number that stands at `pos`.
pub open spec fn i32_at(bytes: Seq<u8>, pos: int) -> i32 {
    u32_at(bytes, pos) as i32
}

/// The unsigned 64-bit number that stands at `pos`.
pub open spec fn u64_at(bytes: Seq<u8>, pos: int) -> u64 {
    spec_u64_from_le_bytes(bytes.subrange(pos, pos + 8))
}

/// A number takes four or eight bytes, and is read back from its bytes.
pub proof fn lemma_number_bytes(small: u32, signed: i32, large: u64)
    ensures
        u32_bytes(small).len() == 4,
        i32_bytes(signed).len() == 4,
        u64_bytes(large).len() == 8,
        u32_at(u32_bytes(small), 0) == small,
        i32_at(i32_bytes(signed), 0) == signed,
        u64_at(u64_bytes(large), 0) == large,
{
    lemma_auto_spec_u32_to_from_le_bytes();
    lemma_auto_spec_u64_to_from_le_bytes();
    assert(u32_bytes(small).subrange(0, 4) == u32_bytes(small));
    assert(i32_bytes(signed).subrange(0, 4) == i32_bytes(signed));
    assert(u64_bytes(large).subrange(0, 8) == u64_bytes(large));
    assert((signed as u32) as i32 == signed) by (bit_vector);
}

/// A number that stands at `pos` is read there.
pub proof fn lemma_u32_field(bytes: Seq<u8>, pos: int, value: u32)
    requires
        0 <= pos,
        pos + 4 <= bytes.len(),
        bytes.subrange(pos, pos + 4) == u32_bytes(value),
    ensures
        u32_at(bytes, pos) == value,
{
    lemma_auto_spec_u32_to_from_le_bytes();
    assert(u32_bytes(value).len() == 4);
}

/// A signed number that stands at `pos` is read there.
pub proof fn lemma_i32_field(bytes: Seq<u8>, pos: int, value: i32)
    requires
        0 <= pos,
        pos + 4 <= bytes.len(),
        bytes.subrange(pos, pos + 4) == i32_bytes(value),
    ensures
        i32_at(bytes, pos) == value,
{
    lemma_auto_spec_u32_to_from_le_bytes();
    assert(i32_bytes(value).len() == 4);
    assert((value as u32) as i32 == value) by (bit_vector);
}

/// A large number that stands at `pos` is read there.
pub proof fn lemma_u64_field(bytes: Seq<u8>, pos: int, value: u64)
    requires
        0 <= pos,
        pos + 8 <= bytes.len(),
        bytes.subrange(pos, pos + 8) == u64_bytes(value),
    ensures
        u64_at(bytes, pos) == value,
{
    lemma_auto_spec_u64_to_from_le_bytes();
}

/// Adds the bytes of an unsigned 32-bit number.
pub fn put_u32(out: &mut Vec<u8>, value: u32)
    ensures
        final(out)@ == old(out)@ + u32_bytes(value),
        final(out)@.len() == old(out)@.len() + 4,
{
    let mut bytes = u32_to_le_bytes(value);
    out.append(&mut bytes);
}

/// Adds the bytes of a signed 32-bit number.
pub fn put_i32(out: &mut Vec<u8>, value: i32)
    ensures
        final(out)@ == old(out)@ + i32_bytes(value),
        final(out)@.len() == old(out)@.len() + 4,
{
    let mut bytes = u32_to_le_bytes(value as u32);
    out.append(&mut bytes);
}

/// Adds the bytes of an unsigned 64-bit number.
pub fn put_u64(out: &mut Vec<u8>, value: u64)
    ensures
        final(out)@ == old(out)@ + u64_bytes(value),
        final(out)@.len() == old(out)@.len() + 8,
{
    let mut bytes = u64_to_le_bytes(value);
    out.append(&mut bytes);
}

/// Adds a copy of the given bytes.
pub fn put_slice(out: &mut Vec<u8>, bytes: &[u8])
    ensures
        final(out)@ == old(out)@ + bytes@,
{
    out.extend_from_slice(bytes);
    assert(out@ =~= old(out)@ + bytes@);
}

/// Adds `count` zero bytes.
pub fn put_zeros(out: &mut Vec<u8>, count: usize)
    ensures
        final(out)@ == old(out)@ + zeros(count as nat),
{
    let mut done: usize = 0;
    while done < count
        invariant
            done <= count,
            out@ == old(out)@ + zeros(done as nat),
        decreases count - done,
    {
        out.push(0u8);
        done = done + 1;
        assert(out@ =~= old(out)@ + zeros(done as nat));
    }
    assert(out@ =~= old(out)@ + zeros(count as nat));
}

/// The unsigned 32-bit number that stands at `pos`.
pub fn get_u32(bytes: &[u8], pos: usize) -> (value: u32)
    requires
        pos + 4 <= bytes@.len(),
    ensures
        value == u32_at(bytes@, pos as int),
{
    let size: usize = bytes.len();
    u32_from_le_bytes(slice_subrange(bytes, pos, pos + 4))
}

/// The signed 32-bit number that stands at `pos`.
pub fn get_i32(bytes: &[u8], pos: usize) -> (value: i32)
    requires
        pos + 4 <= bytes@.len(),
    ensures
        value == i32_at(bytes@, pos as int),
{
    let size: usize = bytes.len();
    let raw: u32 = u32_from_le_bytes(slice_subrange(bytes, pos, pos + 4));
    #[verifier::truncate]
    (raw as i32)
}

/// The unsigned 64-bit number that stands at `pos`.
pub fn get_u64(bytes: &[u8], pos: usize) -> (value: u64)
    requires
        pos + 8 <= bytes@.len(),
    ensures
        value == u64_at(bytes@, pos as int),
{
    let size: usize = bytes.len();
    u64_from_le_bytes(slice_subrange(bytes, pos, pos + 8))
}

/// The `N` bytes that stand at `pos`.
pub fn get_array<const N: usize>(bytes: &[u8], pos: usize) -> (value: [u8; N])
    requires
        pos + N <= bytes@.len(),
    ensures
        value@ == bytes@.subrange(pos as int, pos + N),
        value == array_of::<N>(bytes@.subrange(pos as int, pos + N)),
{
    let mut value: [u8; N] = [0u8;N];
    let mut i: usize = 0;
    let size: usize = bytes.len();
    while i < N
        invariant
            i <= N,
            size == bytes@.len(),
            pos + N <= bytes@.len(),
            forall|j: int| 0 <= j < i ==> value@[j] == bytes@[pos + j],
        decreases N - i,
    {
        value[i] = bytes[pos + i];
        i = i + 1;
    }
    assert(value@ =~= bytes@.subrange(pos as int, pos + N));
    proof {
        lemma_array_of::<N>(value);
    }
    value
}

/// Whether the bytes at `pos` are the given ones.
pub fn has_bytes_at(bytes: &[u8], pos: usize, expected: &[u8]) -> (same: bool)
    requires
        pos + expected@.len() <= bytes@.len(),
    ensures
        same == (bytes@.subrange(pos as int, pos + expected@.len()) == expected@),
{
    let mut i: usize = 0;
    let size: usize = bytes.len();
    while i < expected.len()
        invariant
            i <= expected@.len(),
            size == bytes@.len(),
            pos + expected@.len() <= bytes@.len(),
            forall|j: int| 0 <= j < i ==> bytes@[pos + j] == expected@[j],
        decreases expected@.len() - i,
    {
        if bytes[pos + i] != expected[i] {
            assert(bytes@.subrange(pos as int, pos + expected@.len())[i as int] != expected@[i as int]);
            return false;
        }
        i = i + 1;
    }
    assert(bytes@.subrange(pos as int, pos + expected@.len()) =~= expected@);
    true
}

/// The array that holds the given bytes.
pub open spec fn array_of<const N: usize>(bytes: Seq<u8>) -> [u8; N] {
    choose|array: [u8; N]| array@ == bytes
}

/// An array is the array that holds its bytes.
pub proof fn lemma_array_of<const N: usize>(array: [u8; N])
    ensures
        array_of::<N>(array@) == array,
{
    let found = array_of::<N>(array@);
    assert(found@ == array@);
    assert(found =~= array);
}

} // verus!
