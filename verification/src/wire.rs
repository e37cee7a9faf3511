//! Big-endian fields of packets: their bytes, and reading and writing them.
use vstd::prelude::*;

verus! {

/// The two bytes of `value`, most significant first.
pub open spec fn be16(value: u16) -> Seq<u8> {
    seq![(value / 256) as u8, (value % 256) as u8]
}

/// The four bytes of `value`, most significant first.
pub open spec fn be32(value: u32) -> Seq<u8> {
    be16((value / 0x1_0000) as u16) + be16((value % 0x1_0000) as u16)
}

/// The eight bytes of `value`, most significant first.
pub open spec fn be64(value: u64) -> Seq<u8> {
    be32((value / 0x1_0000_0000) as u32) + be32((value % 0x1_0000_0000) as u32)
}

/// The number in the two bytes of `bytes` from `at` on.
pub open spec fn u16_at(bytes: Seq<u8>, at: int) -> u16 {
    (bytes[at] * 256 + bytes[at + 1]) as u16
}

/// The number in the four bytes of `bytes` from `at` on.
pub open spec fn u32_at(bytes: Seq<u8>, at: int) -> u32 {
    (u16_at(bytes, at) * 0x1_0000 + u16_at(bytes, at + 2)) as u32
}

/// The number in the eight bytes of `bytes` from `at` on.
pub open spec fn u64_at(bytes: Seq<u8>, at: int) -> u64 {
    (u32_at(bytes, at) * 0x1_0000_0000 + u32_at(bytes, at + 4)) as u64
}

/// The two's complement reading of a 32-bit pattern.
pub open spec fn i32_of(bits: u32) -> i32 {
    if bits < 0x8000_0000 {
        bits as i32
    } else {
        (bits - 0x1_0000_0000) as i32
    }
}

/// The two's complement bit pattern of `value`.
pub open spec fn bits_of_i32(value: i32) -> u32 {
    if value >= 0 {
        value as u32
    } else {
        (value + 0x1_0000_0000) as u32
    }
}

/// Writing a 16-bit field at `at` and reading it back gives the field.
pub proof fn lemma_u16_round_trip(bytes: Seq<u8>, at: int, value: u16)
    requires
        0 <= at,
        at + 2 <= bytes.len(),
        bytes.subrange(at, at + 2) == be16(value),
    ensures
        u16_at(bytes, at) == value,
{
    let part = bytes.subrange(at, at + 2);
    assert(bytes[at] == part[0]);
    assert(bytes[at + 1] == part[1]);
}

/// Writing a 32-bit field at `at` and reading it back gives the field.
pub proof fn lemma_u32_round_trip(bytes: Seq<u8>, at: int, value: u32)
    requires
        0 <= at,
        at + 4 <= bytes.len(),
        bytes.subrange(at, at + 4) == be32(value),
    ensures
        u32_at(bytes, at) == value,
{
    let high = (value / 0x1_0000) as u16;
    let low = (value % 0x1_0000) as u16;
    assert(bytes.subrange(at, at + 2) =~= bytes.subrange(at, at + 4).subrange(0, 2));
    assert(bytes.subrange(at, at + 4).subrange(0, 2) =~= be16(high));
    assert(bytes.subrange(at + 2, at + 4) =~= bytes.subrange(at, at + 4).subrange(2, 4));
    assert(bytes.subrange(at, at + 4).subrange(2, 4) =~= be16(low));
    lemma_u16_round_trip(bytes, at, high);
    lemma_u16_round_trip(bytes, at + 2, low);
}

/// Writing a 64-bit field at `at` and reading it back gives the field.
pub proof fn lemma_u64_round_trip(bytes: Seq<u8>, at: int, value: u64)
    requires
        0 <= at,
        at + 8 <= bytes.len(),
        bytes.subrange(at, at + 8) == be64(value),
    ensures
        u64_at(bytes, at) == value,
{
    let high = (value / 0x1_0000_0000) as u32;
    let low = (value % 0x1_0000_0000) as u32;
    assert(bytes.subrange(at, at + 4) =~= bytes.subrange(at, at + 8).subrange(0, 4));
    assert(bytes.subrange(at, at + 8).subrange(0, 4) =~= be32(high));
    assert(bytes.subrange(at + 4, at + 8) =~= bytes.subrange(at, at + 8).subrange(4, 8));
    assert(bytes.subrange(at, at + 8).subrange(4, 8) =~= be32(low));
    lemma_u32_round_trip(bytes, at, high);
    lemma_u32_round_trip(bytes, at + 4, low);
}

/// The bytes of a 16-bit field that was read are the bytes it was read from.
pub proof fn lemma_be16_of_read(bytes: Seq<u8>, at: int)
    requires
        0 <= at,
        at + 2 <= bytes.len(),
    ensures
        be16(u16_at(bytes, at)) == bytes.subrange(at, at + 2),
{
    assert(be16(u16_at(bytes, at)) =~= bytes.subrange(at, at + 2));
}

/// The bytes of a 32-bit field that was read are the bytes it was read from.
pub proof fn lemma_be32_of_read(bytes: Seq<u8>, at: int)
    requires
        0 <= at,
        at + 4 <= bytes.len(),
    ensures
        be32(u32_at(bytes, at)) == bytes.subrange(at, at + 4),
{
    lemma_be16_of_read(bytes, at);
    lemma_be16_of_read(bytes, at + 2);
    assert(u32_at(bytes, at) / 0x1_0000 == u16_at(bytes, at));
    assert(u32_at(bytes, at) % 0x1_0000 == u16_at(bytes, at + 2));
    assert(bytes.subrange(at, at + 4) =~= bytes.subrange(at, at + 2) + bytes.subrange(
        at + 2,
        at + 4,
    ));
}

/// The bytes of a 64-bit field that was read are the bytes it was read from.
pub proof fn lemma_be64_of_read(bytes: Seq<u8>, at: int)
    requires
        0 <= at,
        at + 8 <= bytes.len(),
    ensures
        be64(u64_at(bytes, at)) == bytes.subrange(at, at + 8),
{
    lemma_be32_of_read(bytes, at);
    lemma_be32_of_read(bytes, at + 4);
    assert(u64_at(bytes, at) / 0x1_0000_0000 == u32_at(bytes, at));
    assert(u64_at(bytes, at) % 0x1_0000_0000 == u32_at(bytes, at + 4));
    assert(bytes.subrange(at, at + 8) =~= bytes.subrange(at, at + 4) + bytes.subrange(
        at + 4,
        at + 8,
    ));
}

/// A field that lies within the first part of two is read from that part alone.
pub proof fn lemma_reads_of_prefix(head: Seq<u8>, rest: Seq<u8>, at: int)
    requires
        0 <= at,
    ensures
        at + 2 <= head.len() ==> u16_at(head + rest, at) == u16_at(head, at),
        at + 4 <= head.len() ==> u32_at(head + rest, at) == u32_at(head, at),
        at + 8 <= head.len() ==> u64_at(head + rest, at) == u64_at(head, at),
{
}

/// The bit pattern of a signed number and its reading undo each other.
pub proof fn lemma_i32_bits_round_trip(value: i32, bits: u32)
    ensures
        i32_of(bits_of_i32(value)) == value,
        bits_of_i32(i32_of(bits)) == bits,
{
}

/// Reads the 16-bit field at `offset`.
pub fn read_u16(input: &[u8], offset: usize) -> (value: u16)
    requires
        offset + 2 <= input.len(),
    ensures
        value == u16_at(input@, offset as int),
{
    input[offset] as u16 * 256 + input[offset + 1] as u16
}

/// Reads the 32-bit field at `offset`.
pub fn read_u32(input: &[u8], offset: usize) -> (value: u32)
    requires
        offset + 4 <= input.len(),
    ensures
        value == u32_at(input@, offset as int),
{
    read_u16(input, offset) as u32 * 0x1_0000 + read_u16(input, offset + 2) as u32
}

/// Reads the 64-bit field at `offset`.
pub fn read_u64(input: &[u8], offset: usize) -> (value: u64)
    requires
        offset + 8 <= input.len(),
    ensures
        value == u64_at(input@, offset as int),
{
    read_u32(input, offset) as u64 * 0x1_0000_0000 + read_u32(input, offset + 4) as u64
}

/// Reads the signed 32-bit field at `offset`.
pub fn read_i32(input: &[u8], offset: usize) -> (value: i32)
    requires
        offset + 4 <= input.len(),
    ensures
        value == i32_of(u32_at(input@, offset as int)),
{
    let bits: u32 = read_u32(input, offset);
    if bits < 0x8000_0000 {
        bits as i32
    } else {
        (bits as i64 - 0x1_0000_0000) as i32
    }
}

/// Appends `bytes` to `output`.
pub fn put_bytes(output: &mut Vec<u8>, bytes: &[u8])
    ensures
        final(output)@ == old(output)@ + bytes@,
{
    output.extend_from_slice(bytes);
    assert(output@ =~= old(output)@ + bytes@);
}

/// Appends one byte to `output`.
pub fn put_u8(output: &mut Vec<u8>, value: u8)
    ensures
        final(output)@ == old(output)@ + seq![value],
{
    output.push(value);
    assert(output@ =~= old(output)@ + seq![value]);
}

/// Appends the bytes of a 16-bit field to `output`.
pub fn put_u16(output: &mut Vec<u8>, value: u16)
    ensures
        final(output)@ == old(output)@ + be16(value),
{
    output.push((value / 256) as u8);
    output.push((value % 256) as u8);
    assert(output@ =~= old(output)@ + be16(value));
}

/// Appends the bytes of a 32-bit field to `output`.
pub fn put_u32(output: &mut Vec<u8>, value: u32)
    ensures
        final(output)@ == old(output)@ + be32(value),
{
    put_u16(output, (value / 0x1_0000) as u16);
    put_u16(output, (value % 0x1_0000) as u16);
    assert(output@ =~= old(output)@ + be32(value));
}

/// Appends the bytes of a 64-bit field to `output`.
pub fn put_u64(output: &mut Vec<u8>, value: u64)
    ensures
        final(output)@ == old(output)@ + be64(value),
{
    put_u32(output, (value / 0x1_0000_0000) as u32);
    put_u32(output, (value % 0x1_0000_0000) as u32);
    assert(output@ =~= old(output)@ + be64(value));
}

/// Appends the bytes of a signed 32-bit field to `output`.
pub fn put_i32(output: &mut Vec<u8>, value: i32)
    ensures
        final(output)@ == old(output)@ + be32(bits_of_i32(value)),
{
    let bits: u32 = if value >= 0 {
        value as u32
    } else {
        (value as i64 + 0x1_0000_0000) as u32
    };
    put_u32(output, bits);
}

/// The bytes `from..to` of `input` as a vector.
pub fn copy_range(input: &[u8], from: usize, to: usize) -> (bytes: Vec<u8>)
    requires
        from <= to <= input.len(),
    ensures
        bytes@ == input@.subrange(from as int, to as int),
{
    vstd::slice::slice_to_vec(vstd::slice::slice_subrange(input, from, to))
}

/// The `N` bytes of `input` from `offset` on.
pub fn read_array<const N: usize>(input: &[u8], offset: usize) -> (array: [u8; N])
    requires
        offset + N <= input.len(),
    ensures
        array@ == input@.subrange(offset as int, offset + N),
{
    let mut array: [u8; N] = [0u8; N];
    let mut index: usize = 0;
    while index < N
        invariant
            index <= N,
            offset + N <= input.len(),
            forall|k: int| 0 <= k < index ==> array@[k] == input@[offset + k],
        decreases N - index,
    {
        array[index] = input[offset + index];
        index = index + 1;
    }
    assert(array@ =~= input@.subrange(offset as int, offset + N));
    array
}

/// Whether two byte strings are equal.
pub fn bytes_equal(left: &[u8], right: &[u8]) -> (equal: bool)
    ensures
        equal == (left@ == right@),
{
    if left.len() != right.len() {
        return false;
    }
    let mut index: usize = 0;
    while index < left.len()
        invariant
            left@.len() == right@.len(),
            index <= left@.len(),
            forall|k: int| 0 <= k < index ==> left@[k] == right@[k],
        decreases left@.len() - index,
    {
        if left[index] != right[index] {
            return false;
        }
        index = index + 1;
    }
    assert(left@ =~= right@);
    true
}

/// Whether every byte is zero.
pub open spec fn all_zero(bytes: Seq<u8>) -> bool {
    forall|k: int| 0 <= k < bytes.len() ==> bytes[k] == 0
}

/// Whether every byte of `bytes` is zero.
pub fn is_all_zero(bytes: &[u8]) -> (zero: bool)
    ensures
        zero == all_zero(bytes@),
{
    let mut index: usize = 0;
    while index < bytes.len()
        invariant
            index <= bytes@.len(),
            forall|k: int| 0 <= k < index ==> bytes@[k] == 0,
        decreases bytes@.len() - index,
    {
        if bytes[index] != 0 {
            return false;
        }
        index = index + 1;
    }
    true
}

/// A field is the number whose digits to the base 256 are its bytes, the first one counting
/// most.
pub proof fn lemma_fields_are_big_endian(bytes: Seq<u8>, at: int)
    ensures
        u16_at(bytes, at) == bytes[at] * 0x100 + bytes[at + 1],
        u32_at(bytes, at) == bytes[at] * 0x100_0000 + bytes[at + 1] * 0x1_0000 + bytes[at + 2]
            * 0x100 + bytes[at + 3],
        u64_at(bytes, at) == bytes[at] * 0x100_0000_0000_0000 + bytes[at + 1]
            * 0x1_0000_0000_0000 + bytes[at + 2] * 0x100_0000_0000 + bytes[at + 3]
            * 0x1_0000_0000 + bytes[at + 4] * 0x100_0000 + bytes[at + 5] * 0x1_0000 + bytes[at + 6]
            * 0x100 + bytes[at + 7],
{
}

/// A signed field holds the number itself, or the number and two to the power of 32.
pub proof fn lemma_signed_fields(value: i32)
    ensures
        bits_of_i32(value) == value || bits_of_i32(value) == value + 0x1_0000_0000,
        value >= 0 <==> bits_of_i32(value) < 0x8000_0000,
{
}

/// What is all zero has no byte that is not.
pub proof fn lemma_all_zero(bytes: Seq<u8>)
    ensures
        all_zero(bytes) <==> bytes == Seq::new(bytes.len(), |index: int| 0u8),
{
    if all_zero(bytes) {
        assert(bytes =~= Seq::new(bytes.len(), |index: int| 0u8));
    } else {
        assert(exists|index: int| 0 <= index < bytes.len() && bytes[index] != 0);
    }
}

/// A field that lies behind the first part of two is read from the second part alone.
pub proof fn lemma_reads_behind(head: Seq<u8>, rest: Seq<u8>, at: int)
    requires
        0 <= at,
    ensures
        at + 2 <= rest.len() ==> u16_at(head + rest, head.len() + at) == u16_at(rest, at),
        at + 4 <= rest.len() ==> u32_at(head + rest, head.len() + at) == u32_at(rest, at),
        at + 8 <= rest.len() ==> u64_at(head + rest, head.len() + at) == u64_at(rest, at),
{
}

} // verus!
