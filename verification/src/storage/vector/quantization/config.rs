//! Which quantization a vector index uses, and the sizes it gives.

use vstd::prelude::*;

verus! {

/// Kind of quantization.
#[derive(Clone, Debug, PartialEq)]
pub enum QuantizationType {
    /// Binary Quantization: 1 bit per dimension
    Binary,
    /// Scalar Quantization: 4 bits per dimension (future)
    Scalar,
    /// Product Quantization: sub-vector quantization (future)
    Product,
}

impl Default for QuantizationType {
    fn default() -> (r: Self)
        ensures
            r == QuantizationType::Binary,
    {
        QuantizationType::Binary
    }
}

/// Quantization settings of an index.
#[derive(Clone, Debug)]
pub struct QuantizationConfig {
    /// Type of quantization to use
    pub quantization_type: QuantizationType,
    /// Whether quantization is enabled
    pub enabled: bool,
    /// Vector dimension
    pub dimension: usize,
}

/// The number of bytes needed for `bits` bits.
pub open spec fn bytes_for_bits(bits: int) -> int {
    (bits + 7) / 8
}

/// `bits` rounded up to whole bytes, as a byte count.
pub fn div_ceil8(bits: usize) -> (r: usize)
    ensures
        r == bytes_for_bits(bits as int),
{
    bits / 8 + if bits % 8 == 0 {
        0
    } else {
        1
    }
}

/// The encoded size, in bytes, of a vector under `c`.
pub open spec fn compressed_size_of(c: QuantizationConfig) -> int {
    if !c.enabled {
        0
    } else {
        match c.quantization_type {
            QuantizationType::Binary => bytes_for_bits(c.dimension as int),
            QuantizationType::Scalar => (c.dimension + 1) / 2,
            QuantizationType::Product => (c.dimension / 8) as int,
        }
    }
}

impl QuantizationConfig {
    /// Enabled binary quantization of the given dimension.
    pub fn new(dimension: usize) -> (r: Self)
        ensures
            r.quantization_type == QuantizationType::Binary,
            r.enabled,
            r.dimension == dimension,
    {
        QuantizationConfig { quantization_type: QuantizationType::Binary, enabled: true, dimension }
    }

    /// Quantization turned off.
    pub fn disabled() -> (r: Self)
        ensures
            r.quantization_type == QuantizationType::Binary,
            !r.enabled,
            r.dimension == 0,
    {
        QuantizationConfig { quantization_type: QuantizationType::Binary, enabled: false, dimension: 0 }
    }

    /// Encoded size in bytes: zero when disabled; one bit per component
    /// for binary, four bits for scalar (both rounded up to whole bytes), an
    /// eighth of a byte for product.
    pub fn compressed_size(&self) -> (r: usize)
        ensures
            r == compressed_size_of(*self),
    {
        if !self.enabled {
            return 0;
        }
        match self.quantization_type {
            QuantizationType::Binary => div_ceil8(self.dimension),
            QuantizationType::Scalar => self.dimension / 2 + self.dimension % 2,
            QuantizationType::Product => self.dimension / 8,
        }
    }

    /// Size in bytes of the unquantized vector: four bytes per component.
    pub fn original_size(&self) -> (r: usize)
        requires
            self.dimension * 4 <= usize::MAX,
        ensures
            r == self.dimension * 4,
    {
        self.dimension * 4
    }
}

impl Default for QuantizationConfig {
    fn default() -> (r: Self)
        ensures
            r.quantization_type == QuantizationType::Binary,
            !r.enabled,
            r.dimension == 0,
    {
        Self::disabled()
    }
}

} // verus!
