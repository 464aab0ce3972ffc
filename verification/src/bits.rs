//! Bit streams: numbers written most significant bit first, and the
//! packing of a stream into padded codewords.

use vstd::prelude::*;
use crate::types::EncodeError;

verus! {

/// Bit `k` of `value`, bit 0 being the least significant.
pub open spec fn bit_at(value: u32, k: u32) -> bool {
    (value >> k) & 1 == 1
}

/// The low `width` bits of `value`, most significant first.
pub open spec fn bits_of(value: u32, width: int) -> Seq<bool> {
    Seq::new(width as nat, |i: int| bit_at(value, (width - 1 - i) as u32))
}

/// The bit at position `p` of a stream that goes on with zero bits.
pub open spec fn spec_bit(bits: Seq<bool>, p: int) -> bool {
    0 <= p < bits.len() && bits[p]
}

/// What a bit is worth as a number.
pub open spec fn bit_value(b: bool) -> int {
    if b {
        1
    } else {
        0
    }
}

/// The codeword made of the eight bits from position `8 * j` on, the first
/// of them the most significant.
pub open spec fn spec_byte_at(bits: Seq<bool>, j: int) -> u8 {
    (128 * bit_value(spec_bit(bits, 8 * j)) + 64 * bit_value(spec_bit(bits, 8 * j + 1)) + 32
        * bit_value(spec_bit(bits, 8 * j + 2)) + 16 * bit_value(spec_bit(bits, 8 * j + 3)) + 8
        * bit_value(spec_bit(bits, 8 * j + 4)) + 4 * bit_value(spec_bit(bits, 8 * j + 5)) + 2
        * bit_value(spec_bit(bits, 8 * j + 6)) + bit_value(spec_bit(bits, 8 * j + 7))) as u8
}

/// The number of codewords that the stream takes once a terminator of up
/// to four zero bits is added and the last codeword is filled with zeros.
pub open spec fn spec_used_codewords(len: int, capacity: int) -> int {
    if len + 4 <= 8 * capacity {
        (len + 4 + 7) / 8
    } else {
        capacity
    }
}

/// The codewords of a symbol: the stream, its terminator and zero fill,
/// then the pad codewords 0xEC and 0x11 in turn up to `capacity`.
pub open spec fn spec_padded_codewords(bits: Seq<bool>, capacity: int) -> Seq<u8>
    recommends
        bits.len() <= 8 * capacity,
{
    let used = spec_used_codewords(bits.len() as int, capacity);
    Seq::new(
        capacity as nat,
        |j: int|
            if j < used {
                spec_byte_at(bits, j)
            } else if (j - used) % 2 == 0 {
                0xECu8
            } else {
                0x11u8
            },
    )
}

/// Appends the low `width` bits of `value`, most significant first.
pub fn append_bits(bits: &mut Vec<bool>, value: u32, width: u32)
    requires
        width <= 32,
    ensures
        final(bits)@ == old(bits)@ + bits_of(value, width as int),
{
    let ghost before = bits@;
    let mut i: u32 = 0;
    while i < width
        invariant
            i <= width <= 32,
            bits@.len() == before.len() + i,
            forall|j: int| 0 <= j < before.len() ==> bits@[j] == before[j],
            forall|p: int|
                before.len() <= p < before.len() + i ==> #[trigger] bits@[p] == bit_at(
                    value,
                    (width - 1 - (p - before.len())) as u32,
                ),
        decreases width - i,
    {
        let k: u32 = width - 1 - i;
        bits.push((value >> k) & 1 == 1);
        i += 1;
    }
    assert(bits@ =~= before + bits_of(value, width as int));
}

/// Appends every bit of `more`.
pub fn append_stream(bits: &mut Vec<bool>, more: &Vec<bool>)
    ensures
        final(bits)@ == old(bits)@ + more@,
{
    let ghost before = bits@;
    let mut i: usize = 0;
    while i < more.len()
        invariant
            i <= more.len(),
            bits@ =~= before + more@.take(i as int),
        decreases more.len() - i,
    {
        bits.push(more[i]);
        i += 1;
    }
    assert(more@.take(more.len() as int) =~= more@);
}

fn bit_number(bits: &Vec<bool>, p: usize) -> (r: u8)
    ensures
        r == bit_value(spec_bit(bits@, p as int)),
{
    if p < bits.len() && bits[p] {
        1
    } else {
        0
    }
}

/// The codeword made of the eight bits from position `8 * j` on.
pub fn byte_at(bits: &Vec<bool>, j: usize) -> (r: u8)
    requires
        8 * j + 7 <= usize::MAX,
    ensures
        r == spec_byte_at(bits@, j as int),
{
    let p: usize = 8 * j;
    128 * bit_number(bits, p) + 64 * bit_number(bits, p + 1) + 32 * bit_number(bits, p + 2) + 16
        * bit_number(bits, p + 3) + 8 * bit_number(bits, p + 4) + 4 * bit_number(bits, p + 5) + 2
        * bit_number(bits, p + 6) + bit_number(bits, p + 7)
}

/// Packs a bit stream into exactly `capacity` codewords: terminator, zero
/// fill to the codeword boundary, then pad codewords. `DataTooLong` exactly
/// when the stream has more than `8 * capacity` bits.
pub fn pad_codewords(bits: &Vec<bool>, capacity: usize) -> (r: Result<Vec<u8>, EncodeError>)
    requires
        8 * capacity + 8 <= usize::MAX,
    ensures
        match r {
            Ok(out) => bits@.len() <= 8 * capacity && out@ == spec_padded_codewords(
                bits@,
                capacity as int,
            ) && out@.len() == capacity,
            Err(e) => bits@.len() > 8 * capacity && e == EncodeError::DataTooLong,
        },
{
    let len = bits.len();
    if len > 8 * capacity {
        return Err(EncodeError::DataTooLong);
    }
    let used: usize = if len + 4 <= 8 * capacity {
        (len + 4 + 7) / 8
    } else {
        capacity
    };
    let mut out: Vec<u8> = Vec::new();
    let mut j: usize = 0;
    while j < capacity
        invariant
            j <= capacity,
            8 * capacity + 8 <= usize::MAX,
            used == spec_used_codewords(bits@.len() as int, capacity as int),
            used <= capacity,
            out@.len() == j,
            forall|k: int|
                0 <= k < j ==> out@[k] == spec_padded_codewords(bits@, capacity as int)[k],
        decreases capacity - j,
    {
        let b: u8 = if j < used {
            byte_at(bits, j)
        } else if (j - used) % 2 == 0 {
            0xEC
        } else {
            0x11
        };
        out.push(b);
        j += 1;
    }
    assert(out@ =~= spec_padded_codewords(bits@, capacity as int));
    Ok(out)
}

/// Padding always yields as many codewords as the capacity asks for.
pub proof fn lemma_padded_length(bits: Seq<bool>, capacity: int)
    requires
        capacity >= 0,
    ensures
        spec_padded_codewords(bits, capacity).len() == capacity,
{
}

} // verus!
