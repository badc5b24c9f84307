//! Binary quantization: one bit per component, set when the component is
//! greater than zero. Components are 32-bit floats, handled here by their
//! bit patterns (`f32::to_bits`), which is how they are stored.

use vstd::prelude::*;
use crate::storage::vector::quantization::config::{bytes_for_bits, div_ceil8};

verus! {

/// Bit pattern of `1.0f32`.
pub const ONE_BITS: u32 = 0x3F80_0000;

/// Bit pattern of `-1.0f32`.
pub const MINUS_ONE_BITS: u32 = 0xBF80_0000;

/// Whether the float with bit pattern `b` is greater than zero: its sign
/// is positive, it is not zero and it is not NaN (+inf counts).
pub open spec fn is_positive_bits(b: u32) -> bool {
    0 < b && b <= 0x7F80_0000
}

/// Bit `k` (from the least significant) of `byte`.
pub open spec fn bit_of(byte: u8, k: int) -> bool {
    ((byte >> (k as u8)) & 1u8) == 1u8
}

/// `enc` is the binary encoding of `v`: one byte per eight components,
/// bit `k` of byte `q` set exactly when component `8 * q + k` exists and
/// is greater than zero.
pub open spec fn encodes(v: Seq<u32>, enc: Seq<u8>) -> bool {
    &&& enc.len() == bytes_for_bits(v.len() as int)
    &&& forall|q: int, k: int|
        0 <= q < enc.len() && 0 <= k < 8 ==> #[trigger] bit_of(enc[q], k) == (8 * q + k < v.len()
            && is_positive_bits(v[8 * q + k]))
}

/// `dec` is the decoding of `dim` components from `data`: `1.0` for a set
/// bit, `-1.0` for a clear one.
pub open spec fn decodes(data: Seq<u8>, dim: int, dec: Seq<u32>) -> bool {
    &&& dec.len() == dim
    &&& forall|i: int|
        0 <= i < dim ==> #[trigger] dec[i] == if bit_of(data[i / 8], i % 8) {
            ONE_BITS
        } else {
            MINUS_ONE_BITS
        }
}

proof fn lemma_set_bit(x: u8, k0: u8, k: u8)
    requires
        k0 < 8,
        k < 8,
    ensures
        (((x | (1u8 << k0)) >> k) & 1u8 == 1u8) == (k == k0 || ((x >> k) & 1u8) == 1u8),
{
    assert((((x | (1u8 << k0)) >> k) & 1u8 == 1u8) == (k == k0 || ((x >> k) & 1u8) == 1u8))
        by (bit_vector)
        requires
            k0 < 8,
            k < 8,
    ;
}

proof fn lemma_zero_bits(k: u8)
    requires
        k < 8,
    ensures
        ((0u8 >> k) & 1u8) != 1u8,
{
    assert(((0u8 >> k) & 1u8) != 1u8) by (bit_vector);
}

/// Binary quantizer of vectors of a fixed dimension.
pub struct BinaryQuantizer {
    dimension: usize,
}

impl BinaryQuantizer {
    /// The dimension of the vectors it decodes.
    pub closed spec fn dim(self) -> usize {
        self.dimension
    }

    /// A quantizer for the given dimension.
    pub fn new(dimension: usize) -> (r: Self)
        ensures
            r.dim() == dimension,
    {
        BinaryQuantizer { dimension }
    }

    /// The dimension.
    pub fn dimension(&self) -> (r: usize)
        ensures
            r == self.dim(),
    {
        self.dimension
    }

    /// Encodes a vector (given by its components' bit patterns): bit `i`
    /// is set exactly when component `i` is greater than zero.
    pub fn encode(&self, vector: &[u32]) -> (r: Vec<u8>)
        ensures
            encodes(vector@, r@),
    {
        let n = vector.len();
        let bytes = div_ceil8(n);
        let mut result: Vec<u8> = vec![0u8; bytes];
        proof {
            assert forall|q: int, k: int| 0 <= q < result@.len() && 0 <= k < 8 implies !#[trigger] bit_of(
                result@[q],
                k,
            ) by {
                lemma_zero_bits(k as u8);
            }
        }
        let mut i: usize = 0;
        while i < n
            invariant
                n == vector@.len(),
                result@.len() == bytes_for_bits(n as int),
                i <= n,
                forall|q: int, k: int|
                    0 <= q < result@.len() && 0 <= k < 8 ==> #[trigger] bit_of(result@[q], k) == (8 * q
                        + k < i && is_positive_bits(vector@[8 * q + k])),
            decreases n - i,
        {
            let v = vector[i];
            if 0 < v && v <= 0x7F80_0000 {
                let q0 = i / 8;
                let k0 = (i % 8) as u8;
                let old_byte = result[q0];
                result.set(q0, old_byte | (1u8 << k0));
                proof {
                    let prev = result@.update(q0 as int, old_byte);
                    assert forall|q: int, k: int| 0 <= q < result@.len() && 0 <= k < 8 implies #[trigger] bit_of(
                        result@[q],
                        k,
                    ) == (8 * q + k < i + 1 && is_positive_bits(vector@[8 * q + k])) by {
                        if q == q0 {
                            lemma_set_bit(old_byte, k0, k as u8);
                            assert(bit_of(prev[q], k) == (8 * q + k < i && is_positive_bits(vector@[8 * q + k])));
                        } else {
                            assert(bit_of(prev[q], k) == (8 * q + k < i && is_positive_bits(vector@[8 * q + k])));
                        }
                    }
                }
            } else {
                proof {
                    assert forall|q: int, k: int| 0 <= q < result@.len() && 0 <= k < 8 implies #[trigger] bit_of(
                        result@[q],
                        k,
                    ) == (8 * q + k < i + 1 && is_positive_bits(vector@[8 * q + k])) by {
                        if 8 * q + k == i {
                            assert(!is_positive_bits(vector@[i as int]));
                        }
                    }
                }
            }
            i = i + 1;
        }
        result
    }

    /// Decodes the first `dimension` bits: `1.0` for a set bit, `-1.0`
    /// for a clear one (as bit patterns).
    pub fn decode(&self, data: &[u8]) -> (r: Vec<u32>)
        requires
            self.dim() == 0 || (self.dim() - 1) / 8 < data@.len(),
        ensures
            decodes(data@, self.dim() as int, r@),
    {
        let mut result: Vec<u32> = Vec::new();
        let mut i: usize = 0;
        while i < self.dimension
            invariant
                self.dimension == 0 || (self.dimension - 1) / 8 < data@.len(),
                i <= self.dimension,
                result@.len() == i,
                forall|j: int|
                    0 <= j < i ==> #[trigger] result@[j] == if bit_of(data@[j / 8], j % 8) {
                        ONE_BITS
                    } else {
                        MINUS_ONE_BITS
                    },
            decreases self.dimension - i,
        {
            let byte = data[i / 8];
            let k = (i % 8) as u8;
            let bit = (byte >> k) & 1u8;
            result.push(if bit == 1 { ONE_BITS } else { MINUS_ONE_BITS });
            i = i + 1;
        }
        result
    }

    /// Encodes a query vector the same way as stored vectors.
    pub fn encode_query(&self, query: &[u32]) -> (r: Vec<u8>)
        ensures
            encodes(query@, r@),
    {
        self.encode(query)
    }

    /// Size of an encoded vector in bytes.
    pub fn encoded_size(&self) -> (r: usize)
        ensures
            r == bytes_for_bits(self.dim() as int),
    {
        div_ceil8(self.dimension)
    }
}

impl Default for BinaryQuantizer {
    fn default() -> (r: Self)
        ensures
            r.dim() == 128,
    {
        BinaryQuantizer { dimension: 128 }
    }
}

/// Decoding an encoding gives back the sign of each component: `1.0`
/// where it was greater than zero, `-1.0` elsewhere.
pub proof fn lemma_decode_encode(v: Seq<u32>, enc: Seq<u8>, dec: Seq<u32>)
    requires
        encodes(v, enc),
        decodes(enc, v.len() as int, dec),
    ensures
        forall|i: int|
            0 <= i < v.len() ==> #[trigger] dec[i] == if is_positive_bits(v[i]) {
                ONE_BITS
            } else {
                MINUS_ONE_BITS
            },
{
    assert forall|i: int| 0 <= i < v.len() implies #[trigger] dec[i] == if is_positive_bits(v[i]) {
        ONE_BITS
    } else {
        MINUS_ONE_BITS
    } by {
        let q = i / 8;
        let k = i % 8;
        assert(8 * q + k == i);
        assert(bit_of(enc[q], k) == (8 * q + k < v.len() && is_positive_bits(v[8 * q + k])));
    }
}

} // verus!
