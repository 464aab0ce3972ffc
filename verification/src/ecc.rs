//! The error-correction encoder: arithmetic in GF(256), Reed-Solomon
//! remainders, and the splitting and interleaving of blocks.

use vstd::prelude::*;
use crate::types::ErrorCorrectionLevel;
use crate::types::EncodeError;
use crate::tables::valid_version;
use crate::tables::spec_total_codewords;
use crate::tables::spec_ecc_per_block;
use crate::tables::spec_num_blocks;
use crate::tables::spec_data_codewords;
use crate::tables::total_codewords;
use crate::tables::ecc_codewords_per_block;
use crate::tables::num_blocks;
use crate::tables::lemma_block_structure;
use crate::bits::bit_at;
use vstd::arithmetic::div_mod::lemma_fundamental_div_mod_converse;

verus! {

/// The product of `z` and the field element x, reduced by the primitive
/// polynomial x^8 + x^4 + x^3 + x^2 + 1.
pub open spec fn spec_gf_double(z: u8) -> u8 {
    if z >= 128 {
        ((2 * (z - 128)) as u8) ^ 0x1D
    } else {
        (2 * z) as u8
    }
}

/// The product of `x` with the polynomial made of bits 7 down to `i` of
/// `y`, by Horner's rule.
pub open spec fn spec_gf_mul_from(x: u8, y: u8, i: int) -> u8
    decreases 8 - i,
{
    if i >= 8 {
        0
    } else {
        let z = spec_gf_double(spec_gf_mul_from(x, y, i + 1));
        if bit_at(y as u32, i as u32) {
            z ^ x
        } else {
            z
        }
    }
}

/// The product of two elements of GF(256).
pub open spec fn spec_gf_mul(x: u8, y: u8) -> u8 {
    spec_gf_mul_from(x, y, 0)
}

/// The field element x^k, the k-th power of the generator 2.
pub open spec fn spec_gf_pow2(k: int) -> u8
    decreases k,
{
    if k <= 0 {
        1
    } else {
        spec_gf_double(spec_gf_pow2(k - 1))
    }
}

/// The polynomial `prev` times (x - root), without its leading coefficient.
pub open spec fn spec_divisor_step(prev: Seq<u8>, root: u8) -> Seq<u8> {
    Seq::new(
        prev.len(),
        |j: int|
            spec_gf_mul(prev[j], root) ^ (if j + 1 < prev.len() {
                prev[j + 1]
            } else {
                0u8
            }),
    )
}

/// The product of (x - 2^0) .. (x - 2^(k-1)), as `degree` coefficients
/// from the highest power down, the leading one left out.
pub open spec fn spec_divisor_after(degree: int, k: int) -> Seq<u8>
    decreases k,
{
    if k <= 0 {
        Seq::new(
            degree as nat,
            |j: int|
                if j == degree - 1 {
                    1u8
                } else {
                    0u8
                },
        )
    } else {
        spec_divisor_step(spec_divisor_after(degree, k - 1), spec_gf_pow2(k - 1))
    }
}

/// The generator polynomial for `degree` error-correction codewords.
pub open spec fn spec_rs_divisor(degree: int) -> Seq<u8> {
    spec_divisor_after(degree, degree)
}

/// One step of polynomial long division: the remainder after one more
/// data codeword `b`.
pub open spec fn spec_remainder_step(prev: Seq<u8>, b: u8, divisor: Seq<u8>) -> Seq<u8> {
    let factor = b ^ prev[0];
    Seq::new(
        divisor.len(),
        |i: int|
            (if i + 1 < divisor.len() {
                prev[i + 1]
            } else {
                0u8
            }) ^ spec_gf_mul(divisor[i], factor),
    )
}

/// The remainder of the data polynomial, shifted up by the divisor's
/// degree, on division by the generator polynomial.
pub open spec fn spec_rs_remainder(data: Seq<u8>, divisor: Seq<u8>) -> Seq<u8>
    decreases data.len(),
{
    if data.len() == 0 {
        Seq::new(divisor.len(), |i: int| 0u8)
    } else {
        spec_remainder_step(spec_rs_remainder(data.drop_last(), divisor), data.last(), divisor)
    }
}

/// The number of data codewords in a short block.
pub open spec fn spec_short_block_len(ecl: ErrorCorrectionLevel, v: int) -> int {
    spec_total_codewords(v) / spec_num_blocks(ecl, v) - spec_ecc_per_block(ecl, v)
}

/// The number of short blocks; the blocks after them hold one data
/// codeword more.
pub open spec fn spec_num_short_blocks(ecl: ErrorCorrectionLevel, v: int) -> int {
    spec_num_blocks(ecl, v) - spec_total_codewords(v) % spec_num_blocks(ecl, v)
}

/// The number of data codewords in block `i`.
pub open spec fn spec_block_len(ecl: ErrorCorrectionLevel, v: int, i: int) -> int {
    spec_short_block_len(ecl, v) + if i >= spec_num_short_blocks(ecl, v) {
        1int
    } else {
        0int
    }
}

/// Where the data codewords of block `i` begin.
pub open spec fn spec_block_start(ecl: ErrorCorrectionLevel, v: int, i: int) -> int {
    i * spec_short_block_len(ecl, v) + if i >= spec_num_short_blocks(ecl, v) {
        i - spec_num_short_blocks(ecl, v)
    } else {
        0int
    }
}

/// The data codewords of block `i`.
pub open spec fn spec_block_data(data: Seq<u8>, ecl: ErrorCorrectionLevel, v: int, i: int) -> Seq<u8> {
    data.subrange(spec_block_start(ecl, v, i), spec_block_start(ecl, v, i) + spec_block_len(ecl, v, i))
}

/// The error-correction codewords of block `i`.
pub open spec fn spec_block_ecc(data: Seq<u8>, ecl: ErrorCorrectionLevel, v: int, i: int) -> Seq<u8> {
    spec_rs_remainder(spec_block_data(data, ecl, v, i), spec_rs_divisor(spec_ecc_per_block(ecl, v)))
}

/// Codeword `k` of the interleaved sequence: the data region takes
/// codeword 0 of every block, then codeword 1 of every block, and so on,
/// the longer blocks giving their last codeword at the end; the
/// error-correction region follows in the same pattern.
pub open spec fn spec_interleaved_at(data: Seq<u8>, ecl: ErrorCorrectionLevel, v: int, k: int) -> u8 {
    let nb = spec_num_blocks(ecl, v);
    let sd = spec_short_block_len(ecl, v);
    let ns = spec_num_short_blocks(ecl, v);
    let dl = spec_data_codewords(ecl, v);
    if k < sd * nb {
        data[spec_block_start(ecl, v, k % nb) + k / nb]
    } else if k < dl {
        data[spec_block_start(ecl, v, ns + (k - sd * nb)) + sd]
    } else {
        spec_block_ecc(data, ecl, v, (k - dl) % nb)[(k - dl) / nb]
    }
}

/// All codewords of a symbol in their final order.
pub open spec fn spec_interleave(data: Seq<u8>, ecl: ErrorCorrectionLevel, v: int) -> Seq<u8> {
    Seq::new(spec_total_codewords(v) as nat, |k: int| spec_interleaved_at(data, ecl, v, k))
}

fn gf_double(z: u8) -> (r: u8)
    ensures
        r == spec_gf_double(z),
{
    if z >= 128 {
        (2 * (z - 128)) ^ 0x1D
    } else {
        2 * z
    }
}

/// The product of two elements of GF(256).
pub fn gf_mul(x: u8, y: u8) -> (r: u8)
    ensures
        r == spec_gf_mul(x, y),
{
    let mut z: u8 = 0;
    let mut k: u32 = 8;
    while k > 0
        invariant
            k <= 8,
            z == spec_gf_mul_from(x, y, k as int),
        decreases k,
    {
        k -= 1;
        z = gf_double(z);
        if ((y as u32) >> k) & 1 == 1 {
            z = z ^ x;
        }
    }
    z
}

/// The generator polynomial for `degree` error-correction codewords.
pub fn rs_divisor(degree: usize) -> (r: Vec<u8>)
    ensures
        r@ == spec_rs_divisor(degree as int),
        r@.len() == degree,
{
    let mut cur: Vec<u8> = Vec::new();
    let mut j: usize = 0;
    while j < degree
        invariant
            j <= degree,
            cur@.len() == j,
            forall|t: int| 0 <= t < j ==> cur@[t] == spec_divisor_after(degree as int, 0)[t],
        decreases degree - j,
    {
        cur.push(if j + 1 == degree {
            1
        } else {
            0
        });
        j += 1;
    }
    assert(cur@ =~= spec_divisor_after(degree as int, 0));
    let mut root: u8 = 1;
    let mut k: usize = 0;
    while k < degree
        invariant
            k <= degree,
            cur@ == spec_divisor_after(degree as int, k as int),
            cur@.len() == degree,
            root == spec_gf_pow2(k as int),
        decreases degree - k,
    {
        let mut next: Vec<u8> = Vec::new();
        let mut j: usize = 0;
        while j < degree
            invariant
                j <= degree,
                cur@.len() == degree,
                next@.len() == j,
                forall|t: int| 0 <= t < j ==> next@[t] == spec_divisor_step(cur@, root)[t],
            decreases degree - j,
        {
            let carry: u8 = if j + 1 < degree {
                cur[j + 1]
            } else {
                0
            };
            next.push(gf_mul(cur[j], root) ^ carry);
            j += 1;
        }
        assert(next@ =~= spec_divisor_step(cur@, root));
        cur = next;
        root = gf_double(root);
        k += 1;
    }
    cur
}

/// The Reed-Solomon error-correction codewords of `data` for the
/// generator polynomial `divisor`.
pub fn rs_remainder(data: &[u8], divisor: &[u8]) -> (r: Vec<u8>)
    ensures
        r@ == spec_rs_remainder(data@, divisor@),
        r@.len() == divisor@.len(),
{
    let degree = divisor.len();
    let mut rem: Vec<u8> = Vec::new();
    if degree == 0 {
        assert(rem@ =~= spec_rs_remainder(data@, divisor@));
        return rem;
    }
    let mut j: usize = 0;
    while j < degree
        invariant
            j <= degree,
            degree == divisor@.len(),
            rem@.len() == j,
            forall|t: int| 0 <= t < j ==> rem@[t] == 0u8,
        decreases degree - j,
    {
        rem.push(0);
        j += 1;
    }
    assert(data@.take(0) =~= Seq::<u8>::empty());
    assert(rem@ =~= spec_rs_remainder(data@.take(0), divisor@));
    let mut i: usize = 0;
    while i < data.len()
        invariant
            i <= data.len(),
            degree == divisor@.len(),
            degree >= 1,
            rem@.len() == degree,
            rem@ == spec_rs_remainder(data@.take(i as int), divisor@),
        decreases data.len() - i,
    {
        let factor: u8 = data[i] ^ rem[0];
        let mut next: Vec<u8> = Vec::new();
        let mut j: usize = 0;
        while j < degree
            invariant
                j <= degree,
                degree == divisor@.len(),
                rem@.len() == degree,
                degree >= 1,
                i < data.len(),
                factor == data@[i as int] ^ rem@[0],
                next@.len() == j,
                forall|t: int|
                    0 <= t < j ==> next@[t] == spec_remainder_step(rem@, data@[i as int], divisor@)[t],
            decreases degree - j,
        {
            let carry: u8 = if j + 1 < degree {
                rem[j + 1]
            } else {
                0
            };
            next.push(carry ^ gf_mul(divisor[j], factor));
            j += 1;
        }
        proof {
            assert(next@ =~= spec_remainder_step(rem@, data@[i as int], divisor@));
            assert(data@.take(i + 1).drop_last() =~= data@.take(i as int));
            assert(data@.take(i + 1).last() == data@[i as int]);
        }
        rem = next;
        i += 1;
    }
    assert(data@.take(data@.len() as int) =~= data@);
    rem
}

/// The blocks of a symbol cover its data codewords exactly: block starts
/// and lengths are those of consecutive runs, the last of which ends at
/// the data capacity.
pub proof fn lemma_block_layout(ecl: ErrorCorrectionLevel, v: int, i: int)
    requires
        valid_version(v),
        0 <= i < spec_num_blocks(ecl, v),
    ensures
        1 <= spec_short_block_len(ecl, v) <= 123,
        1 <= spec_num_short_blocks(ecl, v) <= spec_num_blocks(ecl, v),
        spec_data_codewords(ecl, v) == spec_num_blocks(ecl, v) * spec_short_block_len(ecl, v)
            + spec_num_blocks(ecl, v) - spec_num_short_blocks(ecl, v),
        0 <= spec_block_start(ecl, v, i),
        spec_block_start(ecl, v, i) + spec_block_len(ecl, v, i) == spec_block_start(ecl, v, i + 1),
        spec_block_start(ecl, v, i + 1) <= spec_data_codewords(ecl, v),
        spec_block_start(ecl, v, spec_num_blocks(ecl, v)) == spec_data_codewords(ecl, v),
{
    lemma_block_structure(ecl, v);
    let nb = spec_num_blocks(ecl, v);
    let t = spec_total_codewords(v);
    let e = spec_ecc_per_block(ecl, v);
    let sd = spec_short_block_len(ecl, v);
    let ns = spec_num_short_blocks(ecl, v);
    assert(t == nb * (t / nb) + t % nb && 0 <= t % nb < nb) by (nonlinear_arith)
        requires
            nb >= 1,
            t >= 0,
    ;
    assert(nb * (t / nb - e) == nb * (t / nb) - e * nb) by (nonlinear_arith);
    assert(i * sd + sd == (i + 1) * sd) by (nonlinear_arith);
    assert((i + 1) * sd <= nb * sd) by (nonlinear_arith)
        requires
            i + 1 <= nb,
            sd >= 0,
    ;
    assert(i * sd >= 0) by (nonlinear_arith)
        requires
            i >= 0,
            sd >= 0,
    ;
}

/// A copy of `data[start .. start + len]`.
fn copy_range(data: &Vec<u8>, start: usize, len: usize) -> (r: Vec<u8>)
    requires
        start + len <= data@.len(),
    ensures
        r@ == data@.subrange(start as int, start + len),
{
    let mut out: Vec<u8> = Vec::new();
    let mut t: usize = 0;
    while t < len
        invariant
            t <= len,
            start + len <= data.len(),
            out@.len() == t,
            forall|q: int| 0 <= q < t ==> out@[q] == data@[start + q],
        decreases len - t,
    {
        out.push(data[start + t]);
        t += 1;
    }
    assert(out@ =~= data@.subrange(start as int, start + len));
    out
}

/// One block of codewords: its data codewords and the error-correction
/// codewords computed from them.
#[derive(Debug)]
pub struct CodewordBlock {
    pub data: Vec<u8>,
    pub ecc: Vec<u8>,
}

/// The sizes of the blocks are those that the tables give for the version
/// and level.
pub open spec fn blocks_match(blocks: Seq<CodewordBlock>, ecl: ErrorCorrectionLevel, v: int) -> bool {
    blocks.len() == spec_num_blocks(ecl, v) && forall|i: int|
        0 <= i < blocks.len() ==> (#[trigger] blocks[i]).data@.len() == spec_block_len(ecl, v, i)
            && blocks[i].ecc@.len() == spec_ecc_per_block(ecl, v)
}

/// The blocks are those of `data`: block `i` holds its run of the data
/// codewords and their Reed-Solomon codewords.
pub open spec fn blocks_of(
    blocks: Seq<CodewordBlock>,
    data: Seq<u8>,
    ecl: ErrorCorrectionLevel,
    v: int,
) -> bool {
    blocks.len() == spec_num_blocks(ecl, v) && forall|i: int|
        0 <= i < blocks.len() ==> (#[trigger] blocks[i]).data@ == spec_block_data(data, ecl, v, i)
            && blocks[i].ecc@ == spec_block_ecc(data, ecl, v, i)
}

/// Codeword `k` of the interleaved sequence of `blocks`.
pub open spec fn spec_interleaved_block_at(
    blocks: Seq<CodewordBlock>,
    ecl: ErrorCorrectionLevel,
    v: int,
    k: int,
) -> u8 {
    let nb = spec_num_blocks(ecl, v);
    let sd = spec_short_block_len(ecl, v);
    let ns = spec_num_short_blocks(ecl, v);
    let dl = spec_data_codewords(ecl, v);
    if k < sd * nb {
        blocks[k % nb].data@[k / nb]
    } else if k < dl {
        blocks[ns + (k - sd * nb)].data@[sd]
    } else {
        blocks[(k - dl) % nb].ecc@[(k - dl) / nb]
    }
}

/// The interleaved sequence of `blocks`: codeword 0 of every block, then
/// codeword 1 of every block, and so on through the data codewords, then
/// the error-correction codewords in the same pattern.
pub open spec fn spec_interleave_blocks(
    blocks: Seq<CodewordBlock>,
    ecl: ErrorCorrectionLevel,
    v: int,
) -> Seq<u8> {
    Seq::new(spec_total_codewords(v) as nat, |k: int| spec_interleaved_block_at(blocks, ecl, v, k))
}

/// The data codewords split into the blocks of the version and level,
/// each with its Reed-Solomon codewords. `InvalidVersion` exactly when
/// `version` is outside 1..=40; `InternalEncodingError` exactly when the
/// version is valid and `data` has not the number of data codewords that
/// the version holds.
pub fn split_blocks(data: &Vec<u8>, version: u32, ecl: ErrorCorrectionLevel) -> (r: Result<
    Vec<CodewordBlock>,
    EncodeError,
>)
    ensures
        match r {
            Ok(blocks) => valid_version(version as int) && data@.len() == spec_data_codewords(
                ecl,
                version as int,
            ) && blocks_of(blocks@, data@, ecl, version as int) && blocks_match(
                blocks@,
                ecl,
                version as int,
            ),
            Err(e) => if !valid_version(version as int) {
                e == EncodeError::InvalidVersion
            } else {
                e == EncodeError::InternalEncodingError && data@.len() != spec_data_codewords(
                    ecl,
                    version as int,
                )
            },
        },
{
    if version < 1 || version > 40 {
        return Err(EncodeError::InvalidVersion);
    }
    let ghost v = version as int;
    let total: usize = total_codewords(version) as usize;
    let nb: usize = num_blocks(ecl, version) as usize;
    let el: usize = ecc_codewords_per_block(ecl, version) as usize;
    proof {
        lemma_block_structure(ecl, v);
        lemma_block_layout(ecl, v, 0);
    }
    let sd: usize = total / nb - el;
    let ns: usize = nb - total % nb;
    assert(el * nb <= 30 * 81) by (nonlinear_arith)
        requires
            nb <= 81,
            el <= 30,
    ;
    if data.len() != total - el * nb {
        return Err(EncodeError::InternalEncodingError);
    }
    let divisor = rs_divisor(el);
    let mut blocks: Vec<CodewordBlock> = Vec::new();
    let mut b: usize = 0;
    while b < nb
        invariant
            b <= nb,
            valid_version(v),
            nb == spec_num_blocks(ecl, v),
            sd == spec_short_block_len(ecl, v),
            ns == spec_num_short_blocks(ecl, v),
            el == spec_ecc_per_block(ecl, v),
            data@.len() == spec_data_codewords(ecl, v),
            sd <= 123,
            nb <= 81,
            divisor@ == spec_rs_divisor(el as int),
            divisor@.len() == el,
            blocks@.len() == b,
            forall|q: int|
                0 <= q < b ==> (#[trigger] blocks@[q]).data@ == spec_block_data(data@, ecl, v, q)
                    && blocks@[q].ecc@ == spec_block_ecc(data@, ecl, v, q) && blocks@[q].data@.len()
                    == spec_block_len(ecl, v, q) && blocks@[q].ecc@.len() == el,
        decreases nb - b,
    {
        proof {
            lemma_block_layout(ecl, v, b as int);
        }
        assert(b * sd <= 81 * 123) by (nonlinear_arith)
            requires
                b <= 81,
                sd <= 123,
        ;
        let start: usize = b * sd + if b >= ns {
            b - ns
        } else {
            0
        };
        let len: usize = sd + if b >= ns {
            1
        } else {
            0
        };
        let block = copy_range(data, start, len);
        let ecc = rs_remainder(block.as_slice(), divisor.as_slice());
        blocks.push(CodewordBlock { data: block, ecc });
        b += 1;
    }
    Ok(blocks)
}

/// Whether the sizes of the blocks are those of the version and level.
fn check_blocks(blocks: &Vec<CodewordBlock>, version: u32, ecl: ErrorCorrectionLevel) -> (ok: bool)
    requires
        valid_version(version as int),
    ensures
        ok == blocks_match(blocks@, ecl, version as int),
{
    let ghost v = version as int;
    let total: usize = total_codewords(version) as usize;
    let nb: usize = num_blocks(ecl, version) as usize;
    let el: usize = ecc_codewords_per_block(ecl, version) as usize;
    proof {
        lemma_block_structure(ecl, v);
    }
    let sd: usize = total / nb - el;
    let ns: usize = nb - total % nb;
    if blocks.len() != nb {
        return false;
    }
    let mut i: usize = 0;
    while i < nb
        invariant
            i <= nb == blocks@.len(),
            valid_version(v),
            v == version as int,
            nb == spec_num_blocks(ecl, v),
            sd == spec_short_block_len(ecl, v),
            ns == spec_num_short_blocks(ecl, v),
            el == spec_ecc_per_block(ecl, v),
            sd <= 123,
            forall|q: int|
                0 <= q < i ==> (#[trigger] blocks@[q]).data@.len() == spec_block_len(ecl, v, q)
                    && blocks@[q].ecc@.len() == el,
        decreases nb - i,
    {
        let len: usize = sd + if i >= ns {
            1
        } else {
            0
        };
        if blocks[i].data.len() != len || blocks[i].ecc.len() != el {
            assert(blocks@[i as int].data@.len() != spec_block_len(ecl, v, i as int)
                || blocks@[i as int].ecc@.len() != el);
            return false;
        }
        i += 1;
    }
    true
}

/// The codewords of `blocks` in their final order: codeword 0 of every
/// block, then codeword 1 of every block, and so on, first through the
/// data codewords and then through the error-correction codewords.
/// `InvalidVersion` exactly when `version` is outside 1..=40;
/// `InternalEncodingError` exactly when the version is valid and the
/// sizes of the blocks are not those of the version and level.
pub fn interleave_blocks(blocks: &Vec<CodewordBlock>, version: u32, ecl: ErrorCorrectionLevel) -> (r:
    Result<Vec<u8>, EncodeError>)
    ensures
        match r {
            Ok(out) => valid_version(version as int) && blocks_match(blocks@, ecl, version as int)
                && out@ == spec_interleave_blocks(blocks@, ecl, version as int) && out@.len()
                == spec_total_codewords(version as int),
            Err(e) => if !valid_version(version as int) {
                e == EncodeError::InvalidVersion
            } else {
                e == EncodeError::InternalEncodingError && !blocks_match(
                    blocks@,
                    ecl,
                    version as int,
                )
            },
        },
{
    if version < 1 || version > 40 {
        return Err(EncodeError::InvalidVersion);
    }
    if !check_blocks(blocks, version, ecl) {
        return Err(EncodeError::InternalEncodingError);
    }
    let ghost v = version as int;
    let total: usize = total_codewords(version) as usize;
    let nb: usize = num_blocks(ecl, version) as usize;
    let el: usize = ecc_codewords_per_block(ecl, version) as usize;
    proof {
        lemma_block_structure(ecl, v);
        lemma_block_layout(ecl, v, 0);
    }
    let sd: usize = total / nb - el;
    let ns: usize = nb - total % nb;
    assert(sd * nb <= 123 * 81 && el * nb <= 30 * 81) by (nonlinear_arith)
        requires
            sd <= 123,
            nb <= 81,
            el <= 30,
    ;
    let dl: usize = total - el * nb;
    let mut out: Vec<u8> = Vec::new();
    let mut k: usize = 0;
    while k < total
        invariant
            k <= total,
            valid_version(v),
            total == spec_total_codewords(v),
            nb == spec_num_blocks(ecl, v),
            sd == spec_short_block_len(ecl, v),
            ns == spec_num_short_blocks(ecl, v),
            el == spec_ecc_per_block(ecl, v),
            dl == spec_data_codewords(ecl, v),
            dl == total - el * nb,
            1 <= sd <= 123,
            1 <= nb <= 81,
            1 <= ns <= nb,
            el >= 1,
            sd * nb <= 123 * 81,
            dl == nb * sd + nb - ns,
            blocks_match(blocks@, ecl, v),
            out@.len() == k,
            forall|q: int| 0 <= q < k ==> out@[q] == spec_interleaved_block_at(blocks@, ecl, v, q),
        decreases total - k,
    {
        let byte: u8 = if k < sd * nb {
            let blk: usize = k % nb;
            let j: usize = k / nb;
            assert(j < sd) by (nonlinear_arith)
                requires
                    k < sd * nb,
                    j == (k as int) / (nb as int),
                    nb >= 1,
            ;
            assert(blocks@[blk as int].data@.len() == spec_block_len(ecl, v, blk as int));
            blocks[blk].data[j]
        } else if k < dl {
            let blk: usize = ns + (k - sd * nb);
            assert(blocks@[blk as int].data@.len() == spec_block_len(ecl, v, blk as int));
            blocks[blk].data[sd]
        } else {
            let blk: usize = (k - dl) % nb;
            let j: usize = (k - dl) / nb;
            assert(j < el) by (nonlinear_arith)
                requires
                    k - dl < el * nb,
                    j == (k - dl) / (nb as int),
                    nb >= 1,
            ;
            assert(blocks@[blk as int].ecc@.len() == el);
            blocks[blk].ecc[j]
        };
        out.push(byte);
        k += 1;
    }
    assert(out@ =~= spec_interleave_blocks(blocks@, ecl, v));
    Ok(out)
}

/// Codeword `k` of the interleaved blocks of `data` is the codeword that
/// `spec_interleaved_at` finds among the data codewords themselves.
pub proof fn lemma_interleaved_block_at(
    blocks: Seq<CodewordBlock>,
    data: Seq<u8>,
    ecl: ErrorCorrectionLevel,
    v: int,
    k: int,
)
    requires
        valid_version(v),
        data.len() == spec_data_codewords(ecl, v),
        blocks_of(blocks, data, ecl, v),
        0 <= k < spec_total_codewords(v),
    ensures
        spec_interleaved_block_at(blocks, ecl, v, k) == spec_interleaved_at(data, ecl, v, k),
{
    lemma_block_structure(ecl, v);
    lemma_block_layout(ecl, v, 0);
    let nb = spec_num_blocks(ecl, v);
    let sd = spec_short_block_len(ecl, v);
    let ns = spec_num_short_blocks(ecl, v);
    let dl = spec_data_codewords(ecl, v);
    assert(sd * nb == nb * sd) by (nonlinear_arith);
    if k < sd * nb {
        let blk = k % nb;
        let j = k / nb;
        assert(0 <= blk < nb && 0 <= j < sd) by (nonlinear_arith)
            requires
                0 <= k < sd * nb,
                blk == k % nb,
                j == k / nb,
                nb >= 1,
        ;
        lemma_block_layout(ecl, v, blk);
        assert(blocks[blk].data@ == spec_block_data(data, ecl, v, blk));
    } else if k < dl {
        let blk = ns + (k - sd * nb);
        lemma_block_layout(ecl, v, blk);
        assert(blocks[blk].data@ == spec_block_data(data, ecl, v, blk));
    } else {
        let blk = (k - dl) % nb;
        assert(0 <= blk < nb) by (nonlinear_arith)
            requires
                0 <= k - dl,
                blk == (k - dl) % nb,
                nb >= 1,
        ;
        assert(blocks[blk].ecc@ == spec_block_ecc(data, ecl, v, blk));
    }
}

/// Interleaving the blocks of `data` gives the sequence that
/// `spec_interleave` describes over the data codewords themselves.
pub proof fn lemma_interleave_of_blocks(
    blocks: Seq<CodewordBlock>,
    data: Seq<u8>,
    ecl: ErrorCorrectionLevel,
    v: int,
)
    requires
        valid_version(v),
        data.len() == spec_data_codewords(ecl, v),
        blocks_of(blocks, data, ecl, v),
    ensures
        spec_interleave_blocks(blocks, ecl, v) == spec_interleave(data, ecl, v),
{
    lemma_block_structure(ecl, v);
    assert forall|k: int| 0 <= k < spec_total_codewords(v) implies spec_interleaved_block_at(
        blocks,
        ecl,
        v,
        k,
    ) == spec_interleaved_at(data, ecl, v, k) by {
        lemma_interleaved_block_at(blocks, data, ecl, v, k);
    }
    assert(spec_interleave_blocks(blocks, ecl, v) =~= spec_interleave(data, ecl, v));
}

/// The codewords of a symbol in their final order: the data codewords
/// split into the blocks of the version and level, each block followed
/// through its Reed-Solomon codewords, and the blocks interleaved.
/// `InvalidVersion` exactly when `version` is outside 1..=40;
/// `InternalEncodingError` exactly when the version is valid and `data`
/// has not the number of data codewords that the version holds.
pub fn add_error_correction(data: &Vec<u8>, version: u32, ecl: ErrorCorrectionLevel) -> (r: Result<
    Vec<u8>,
    EncodeError,
>)
    ensures
        match r {
            Ok(out) => valid_version(version as int) && data@.len() == spec_data_codewords(
                ecl,
                version as int,
            ) && out@ == spec_interleave(data@, ecl, version as int) && out@.len()
                == spec_total_codewords(version as int),
            Err(e) => if !valid_version(version as int) {
                e == EncodeError::InvalidVersion
            } else {
                e == EncodeError::InternalEncodingError && data@.len() != spec_data_codewords(
                    ecl,
                    version as int,
                )
            },
        },
{
    let blocks = match split_blocks(data, version, ecl) {
        Ok(blocks) => blocks,
        Err(e) => {
            return Err(e);
        },
    };
    proof {
        lemma_interleave_of_blocks(blocks@, data@, ecl, version as int);
    }
    interleave_blocks(&blocks, version, ecl)
}

/// Where codeword `j` of block `i` stands in the data region of the
/// interleaved sequence: after codeword `j` of the blocks before it, and,
/// for the extra codeword of a longer block, after all the shorter rows.
pub open spec fn spec_data_position(ecl: ErrorCorrectionLevel, v: int, i: int, j: int) -> int {
    if j < spec_short_block_len(ecl, v) {
        j * spec_num_blocks(ecl, v) + i
    } else {
        spec_short_block_len(ecl, v) * spec_num_blocks(ecl, v) + (i - spec_num_short_blocks(ecl, v))
    }
}

/// In a table of `rows` rows of `width` entries, entry `i` of row `j`
/// is entry `j * width + i` of the whole.
pub proof fn lemma_row_major(width: int, rows: int, i: int, j: int)
    requires
        0 <= i < width,
        0 <= j < rows,
    ensures
        0 <= j * width + i < rows * width,
        (j * width + i) % width == i,
        (j * width + i) / width == j,
{
    lemma_fundamental_div_mod_converse(j * width + i, width, j, i);
    assert(j * width + width <= rows * width) by (nonlinear_arith)
        requires
            j + 1 <= rows,
            width >= 0,
    ;
    assert(j * width >= 0) by (nonlinear_arith)
        requires
            j >= 0,
            width >= 0,
    ;
}

/// The data region of the interleaved sequence takes codeword `j` of
/// every block in turn: data codeword `j` of block `i` stands at
/// `spec_data_position`.
pub proof fn lemma_interleave_data(data: Seq<u8>, ecl: ErrorCorrectionLevel, v: int, i: int, j: int)
    requires
        valid_version(v),
        data.len() == spec_data_codewords(ecl, v),
        0 <= i < spec_num_blocks(ecl, v),
        0 <= j < spec_block_len(ecl, v, i),
    ensures
        0 <= spec_data_position(ecl, v, i, j) < spec_data_codewords(ecl, v),
        spec_data_position(ecl, v, i, j) < spec_total_codewords(v),
        spec_interleave(data, ecl, v)[spec_data_position(ecl, v, i, j)] == spec_block_data(
            data,
            ecl,
            v,
            i,
        )[j],
{
    lemma_block_structure(ecl, v);
    lemma_block_layout(ecl, v, i);
    let nb = spec_num_blocks(ecl, v);
    let sd = spec_short_block_len(ecl, v);
    let el = spec_ecc_per_block(ecl, v);
    assert(sd * nb == nb * sd) by (nonlinear_arith);
    assert(el * nb >= 0) by (nonlinear_arith)
        requires
            el >= 0,
            nb >= 0,
    ;
    if j < sd {
        lemma_row_major(nb, sd, i, j);
    }
}

/// The error-correction region follows the data region in the same
/// pattern: error-correction codeword `j` of block `i` stands `j` rows of
/// blocks after the data codewords.
pub proof fn lemma_interleave_ecc(data: Seq<u8>, ecl: ErrorCorrectionLevel, v: int, i: int, j: int)
    requires
        valid_version(v),
        data.len() == spec_data_codewords(ecl, v),
        0 <= i < spec_num_blocks(ecl, v),
        0 <= j < spec_ecc_per_block(ecl, v),
    ensures
        spec_data_codewords(ecl, v) <= spec_data_codewords(ecl, v) + j * spec_num_blocks(ecl, v) + i
            < spec_total_codewords(v),
        spec_interleave(data, ecl, v)[spec_data_codewords(ecl, v) + j * spec_num_blocks(ecl, v) + i]
            == spec_block_ecc(data, ecl, v, i)[j],
{
    lemma_block_structure(ecl, v);
    lemma_block_layout(ecl, v, i);
    let nb = spec_num_blocks(ecl, v);
    let sd = spec_short_block_len(ecl, v);
    let el = spec_ecc_per_block(ecl, v);
    let dl = spec_data_codewords(ecl, v);
    let k = dl + j * nb + i;
    lemma_row_major(nb, el, i, j);
    assert(sd * nb == nb * sd) by (nonlinear_arith);
    assert(k - dl == j * nb + i);
    assert(spec_interleaved_at(data, ecl, v, k) == spec_block_ecc(data, ecl, v, i)[j]);
}

} // verus!
