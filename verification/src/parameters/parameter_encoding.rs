//! Encoding descriptions for DMX parameters

use vstd::prelude::*;
use vstd::arithmetic::power2::{pow2, lemma2_to64, lemma_pow2_adds, lemma_pow2_strictly_increases};
use crate::scalar::{byte_of, low_bytes_le};

verus! {

#[derive(Clone, Copy, Debug, PartialEq, Eq)]
pub enum Endianness {
    /// DMX big-endian `[coarse, fine]`
    Big,
    /// DMX little-endian `[fine, coarse]`
    Little,
    /// Collated big-endian (combines parameters, e.g. `[coarse1, coarse2, fine1, fine2]`)
    BigCollated,
    /// Collated little-endian (combines parameters, e.g. `[fine1, fine2, coarse1, coarse2]`)
    LittleCollated,
}

/// A transformer from a number to a DMX value. The input bounds are double bit patterns.
#[derive(Clone, Copy, Debug)]
pub struct DMXMappingTransformer {
    /// This input value corresponds to the value `0` in DMX.
    pub input_min: u64,
    /// This input value corresponds to the value $256^{\text{size}} - 1$ in DMX.
    pub input_max: u64,
    /// The number of DMX parameters corresponding to each input value.
    /// This is useful for parameters larger than 1 byte, usually "fine control".
    pub size: u8,
    /// Defines the order of the bytes in each value.
    pub endianness: Endianness,
}

/// The position, in the encoding of `count` values of `stride` bytes each, of byte `j` of value `i`.
pub open spec fn layout_position(endianness: Endianness, count: int, stride: int, i: int, j: int) -> int {
    match endianness {
        Endianness::Big | Endianness::Little => i * stride + j,
        Endianness::BigCollated | Endianness::LittleCollated => i + j * count,
    }
}

/// Byte `j` of the `stride` bytes that encode value `v`: most significant first for the
/// big-endian orders, least significant first for the others.
pub open spec fn layout_byte(endianness: Endianness, stride: int, v: u64, j: int) -> u8 {
    match endianness {
        Endianness::Big | Endianness::BigCollated => byte_of(v, (stride - 1 - j) as nat),
        Endianness::Little | Endianness::LittleCollated => byte_of(v, j as nat),
    }
}

/// The bytes of a value in a layout: in the big-endian orders byte `j` of the `stride` bytes of
/// `v` is `v / 256^(stride - 1 - j) % 256`, from the most significant byte to the least, and in the
/// little-endian orders it is `v / 256^j % 256`; so the big-endian bytes are the little-endian
/// bytes in reverse order.
pub proof fn lemma_layout_byte_significance(stride: int, v: u64)
    requires
        1 <= stride <= 8,
    ensures
        forall|j: int| 0 <= j < stride ==> #[trigger] layout_byte(Endianness::Big, stride, v, j)
            == ((v as nat / pow2(8 * (stride - 1 - j) as nat)) % 256) as u8,
        forall|j: int| 0 <= j < stride ==> #[trigger] layout_byte(Endianness::BigCollated, stride, v, j)
            == ((v as nat / pow2(8 * (stride - 1 - j) as nat)) % 256) as u8,
        forall|j: int| 0 <= j < stride ==> #[trigger] layout_byte(Endianness::Little, stride, v, j)
            == ((v as nat / pow2(8 * j as nat)) % 256) as u8,
        forall|j: int| 0 <= j < stride ==> #[trigger] layout_byte(Endianness::LittleCollated, stride, v, j)
            == ((v as nat / pow2(8 * j as nat)) % 256) as u8,
        forall|j: int| 0 <= j < stride ==> #[trigger] layout_byte(Endianness::Big, stride, v, j)
            == layout_byte(Endianness::Little, stride, v, stride - 1 - j),
{
}

/// Where the bytes of `count` values of `stride` bytes go: each byte of each value to its own
/// place among the `count * stride` output bytes. In the plain orders the bytes of a value are
/// consecutive, and the values follow one another; in the collated orders the bytes of equal
/// significance are consecutive, one for each value in turn.
pub proof fn lemma_layout_positions(endianness: Endianness, count: int, stride: int)
    requires
        1 <= stride,
        0 <= count,
    ensures
        forall|i: int, j: int| 0 <= i < count && 0 <= j < stride ==>
            0 <= #[trigger] layout_position(endianness, count, stride, i, j) < count * stride,
        forall|i1: int, j1: int, i2: int, j2: int|
            0 <= i1 < count && 0 <= j1 < stride && 0 <= i2 < count && 0 <= j2 < stride
            && #[trigger] layout_position(endianness, count, stride, i1, j1)
                == #[trigger] layout_position(endianness, count, stride, i2, j2) ==> i1 == i2 && j1 == j2,
        (endianness is Big || endianness is Little) ==> {
            &&& forall|i: int| 0 <= i < count ==> #[trigger] layout_position(endianness, count, stride, i, 0) == i * stride
            &&& forall|i: int, j: int| 0 <= i < count && 0 <= j < stride - 1 ==>
                layout_position(endianness, count, stride, i, j + 1) == #[trigger] layout_position(endianness, count, stride, i, j) + 1
        },
        (endianness is BigCollated || endianness is LittleCollated) ==> {
            &&& forall|j: int| 0 <= j < stride ==> #[trigger] layout_position(endianness, count, stride, 0, j) == j * count
            &&& forall|i: int, j: int| 0 <= i < count - 1 && 0 <= j < stride ==>
                layout_position(endianness, count, stride, i + 1, j) == #[trigger] layout_position(endianness, count, stride, i, j) + 1
        },
{
    assert forall|i: int, j: int| 0 <= i < count && 0 <= j < stride implies
        0 <= #[trigger] layout_position(endianness, count, stride, i, j) < count * stride by {
        assert(0 <= i * stride + j < count * stride) by (nonlinear_arith)
            requires 0 <= i < count, 0 <= j < stride;
        assert(0 <= i + j * count < count * stride) by (nonlinear_arith)
            requires 0 <= i < count, 0 <= j < stride;
    }
    assert forall|i1: int, j1: int, i2: int, j2: int|
        0 <= i1 < count && 0 <= j1 < stride && 0 <= i2 < count && 0 <= j2 < stride
        && #[trigger] layout_position(endianness, count, stride, i1, j1)
            == #[trigger] layout_position(endianness, count, stride, i2, j2) implies i1 == i2 && j1 == j2 by {
        lemma_unique_digits(stride, i1, j1, i2, j2);
        lemma_unique_digits(count, j1, i1, j2, i2);
    }
}

/// Two numbers written with a low digit below `base` are equal only if both digits are.
proof fn lemma_unique_digits(base: int, hi1: int, lo1: int, hi2: int, lo2: int)
    requires
        0 <= lo1 < base,
        0 <= lo2 < base,
        0 <= hi1,
        0 <= hi2,
    ensures
        hi1 * base + lo1 == hi2 * base + lo2 ==> hi1 == hi2 && lo1 == lo2,
{
    if hi1 * base + lo1 == hi2 * base + lo2 {
        if hi1 < hi2 {
            assert(hi1 * base + base <= hi2 * base) by (nonlinear_arith)
                requires hi1 < hi2, base > 0;
        } else if hi2 < hi1 {
            assert(hi2 * base + base <= hi1 * base) by (nonlinear_arith)
                requires hi2 < hi1, base > 0;
        }
    }
}

impl DMXMappingTransformer {
    /// The highest DMX value of a parameter of `size` bytes: `256^size - 1`.
    pub fn dmx_max(&self) -> (r: u64)
        requires
            self.size <= 8,
        ensures
            r == pow2(8 * self.size as nat) - 1,
    {
        if self.size == 8 {
            proof {
                lemma2_to64();
            }
            return u64::MAX;
        }
        let mut p: u64 = 1;
        let mut i: u8 = 0;
        proof {
            lemma2_to64();
        }
        while i < self.size
            invariant
                i <= self.size < 8,
                p == pow2(8 * i as nat),
                p >= 1,
            decreases self.size - i,
        {
            proof {
                lemma_pow2_adds(8 * i as nat, 8);
                lemma2_to64();
                assert(8 * (i + 1) as nat == 8 * i as nat + 8);
                lemma_pow2_strictly_increases(8 * (i + 1) as nat, 64);
            }
            p = p * 256;
            i = i + 1;
        }
        p - 1
    }

    /// Lay out DMX values into bytes: each value takes `size` bytes, in the transformer's
    /// byte order; collated orders group the bytes of equal significance together.
    /// Sizes over 8 bytes are refused.
    pub fn layout(&self, values: &Vec<u64>) -> (r: Result<Vec<u8>, ()>)
        requires
            values@.len() * 8 <= usize::MAX,
        ensures
            self.size > 8 <==> r is Err,
            r matches Ok(bytes) ==> {
                &&& bytes@.len() == values@.len() * self.size
                &&& forall|i: int, j: int| 0 <= i < values@.len() && 0 <= j < self.size ==>
                    #[trigger] bytes@[layout_position(self.endianness, values@.len() as int, self.size as int, i, j)]
                        == layout_byte(self.endianness, self.size as int, #[trigger] values@[i], j)
            },
    {
        let stride = self.size as usize;
        let count = values.len();
        if stride > 8 {
            return Err(());
        }
        assert(count * stride <= count * 8) by (nonlinear_arith)
            requires
                stride <= 8,
        ;
        let total = count * stride;
        let mut result: Vec<u8> = Vec::new();
        let mut k: usize = 0;
        while k < total
            invariant
                k <= total,
                result@.len() == k,
            decreases total - k,
        {
            result.push(0);
            k = k + 1;
        }
        let mut i: usize = 0;
        while i < count
            invariant
                i <= count,
                count == values@.len(),
                stride == self.size,
                stride <= 8,
                total == count * stride,
                result@.len() == total,
                forall|i2: int, j: int| 0 <= i2 < i && 0 <= j < stride ==>
                    #[trigger] result@[layout_position(self.endianness, count as int, stride as int, i2, j)]
                        == layout_byte(self.endianness, stride as int, #[trigger] values@[i2], j),
            decreases count - i,
        {
            let bytes = low_bytes_le(values[i], self.size);
            let mut j: usize = 0;
            while j < stride
                invariant
                    i < count,
                    j <= stride,
                    count == values@.len(),
                    stride == self.size,
                    stride <= 8,
                    total == count * stride,
                    result@.len() == total,
                    bytes@.len() == stride,
                    forall|jj: int| 0 <= jj < stride ==> #[trigger] bytes@[jj] == byte_of(values@[i as int], jj as nat),
                    forall|i2: int, jj: int| 0 <= i2 < i && 0 <= jj < stride ==>
                        #[trigger] result@[layout_position(self.endianness, count as int, stride as int, i2, jj)]
                            == layout_byte(self.endianness, stride as int, #[trigger] values@[i2], jj),
                    forall|jj: int| 0 <= jj < j ==>
                        #[trigger] result@[layout_position(self.endianness, count as int, stride as int, i as int, jj)]
                            == layout_byte(self.endianness, stride as int, values@[i as int], jj),
                decreases stride - j,
            {
                proof {
                    layout_position_facts(self.endianness, count as int, stride as int, i as int, j as int);
                }
                let position = match self.endianness {
                    Endianness::Big | Endianness::Little => i * stride + j,
                    Endianness::BigCollated | Endianness::LittleCollated => i + j * count,
                };
                let b = match self.endianness {
                    Endianness::Big | Endianness::BigCollated => bytes[stride - j - 1],
                    Endianness::Little | Endianness::LittleCollated => bytes[j],
                };
                let ghost before = result@;
                result.set(position, b);
                proof {
                    let pos = layout_position(self.endianness, count as int, stride as int, i as int, j as int);
                    assert(position as int == pos);
                    assert(b == layout_byte(self.endianness, stride as int, values@[i as int], j as int));
                    assert(result@ == before.update(pos, b));
                    assert forall|i2: int, jj: int| 0 <= i2 < i && 0 <= jj < stride implies
                        #[trigger] result@[layout_position(self.endianness, count as int, stride as int, i2, jj)]
                            == layout_byte(self.endianness, stride as int, #[trigger] values@[i2], jj) by {
                        layout_position_distinct(self.endianness, count as int, stride as int, i2, jj, i as int, j as int);
                        layout_position_facts(self.endianness, count as int, stride as int, i2, jj);
                        assert(result@[layout_position(self.endianness, count as int, stride as int, i2, jj)]
                            == before[layout_position(self.endianness, count as int, stride as int, i2, jj)]);
                    }
                    assert forall|jj: int| 0 <= jj < j + 1 implies
                        #[trigger] result@[layout_position(self.endianness, count as int, stride as int, i as int, jj)]
                            == layout_byte(self.endianness, stride as int, values@[i as int], jj) by {
                        if jj < j {
                            layout_position_distinct(self.endianness, count as int, stride as int, i as int, jj, i as int, j as int);
                            layout_position_facts(self.endianness, count as int, stride as int, i as int, jj);
                            assert(result@[layout_position(self.endianness, count as int, stride as int, i as int, jj)]
                                == before[layout_position(self.endianness, count as int, stride as int, i as int, jj)]);
                        }
                    }
                }
                j = j + 1;
            }
            i = i + 1;
        }
        Ok(result)
    }
}

/// Positions of the layout lie within the encoding.
proof fn layout_position_facts(e: Endianness, count: int, stride: int, i: int, j: int)
    requires
        0 <= i < count,
        0 <= j < stride,
    ensures
        0 <= layout_position(e, count, stride, i, j) < count * stride,
        layout_position(e, count, stride, i, j) == (match e {
            Endianness::Big | Endianness::Little => i * stride + j,
            Endianness::BigCollated | Endianness::LittleCollated => i + j * count,
        }),
{
    assert(0 <= i * stride + j < count * stride) by (nonlinear_arith)
        requires
            0 <= i < count,
            0 <= j < stride,
    ;
    assert(0 <= i + j * count < count * stride) by (nonlinear_arith)
        requires
            0 <= i < count,
            0 <= j < stride,
    ;
}

/// Distinct bytes of the layout lie at distinct positions.
proof fn layout_position_distinct(e: Endianness, count: int, stride: int, i1: int, j1: int, i2: int, j2: int)
    requires
        0 <= i1 < count,
        0 <= j1 < stride,
        0 <= i2 < count,
        0 <= j2 < stride,
        i1 != i2 || j1 != j2,
    ensures
        layout_position(e, count, stride, i1, j1) != layout_position(e, count, stride, i2, j2),
{
    assert(i1 * stride + j1 != i2 * stride + j2) by (nonlinear_arith)
        requires
            0 <= j1 < stride,
            0 <= j2 < stride,
            i1 != i2 || j1 != j2,
    ;
    assert(i1 + j1 * count != i2 + j2 * count) by (nonlinear_arith)
        requires
            0 <= i1 < count,
            0 <= i2 < count,
            i1 != i2 || j1 != j2,
    ;
}

} // verus!
