//! Layer masks: which layers of an axis a twist turns.

use vstd::prelude::*;

verus! {

/// Number of layers that a layer mask can select among.
pub const LAYER_MASK_BITS: u32 = 32;

/// Set of layers of one axis: bit `i` says whether layer `i` is selected.
#[derive(Debug, Clone, Copy, PartialEq, Eq, Structural, Hash)]
pub struct LayerMask(pub u32);

/// Whether bit `i` of `mask` is set.
pub open spec fn mask_bit(mask: u32, i: u32) -> bool {
    (mask >> i) & 1 == 1
}

/// Whether `mask` selects only layers of an axis with `layer_count` layers.
pub open spec fn fits_layers(mask: u32, layer_count: u32) -> bool {
    layer_count >= 32 || mask >> layer_count == 0
}

/// `x` with its 32 bits in the opposite order: adjacent bits change places,
/// then adjacent pairs, nibbles, bytes and halves.
pub open spec fn reverse_bits_spec(x: u32) -> u32 {
    let x = ((x >> 1) & 0x5555_5555) | ((x & 0x5555_5555) << 1);
    let x = ((x >> 2) & 0x3333_3333) | ((x & 0x3333_3333) << 2);
    let x = ((x >> 4) & 0x0f0f_0f0f) | ((x & 0x0f0f_0f0f) << 4);
    let x = ((x >> 8) & 0x00ff_00ff) | ((x & 0x00ff_00ff) << 8);
    (x >> 16) | (x << 16)
}

/// The mask that selects, on an axis with `layer_count` layers, layer
/// `layer_count - 1 - i` wherever `mask` selects layer `i`: the same layers
/// counted from the other end. Bits of `mask` beyond the layer count are
/// dropped.
pub open spec fn reversed_mask(mask: u32, layer_count: u32) -> u32
    recommends
        1 <= layer_count <= 32,
{
    reverse_bits_spec(mask) >> ((32 - layer_count) as u32)
}

/// Bit `i` of the reversed 32 bits is bit `31 - i` of `x`.
pub proof fn lemma_reverse_bits(x: u32, i: u32)
    requires
        i < 32,
    ensures
        mask_bit(reverse_bits_spec(x), i) == mask_bit(x, (31 - i) as u32),
{
    assert(i < 32 ==> mask_bit(reverse_bits_spec(x), i) == mask_bit(x, (31 - i) as u32))
        by (bit_vector);
}

/// Bit `i` of a reversed mask is bit `layer_count - 1 - i` of the mask, and
/// no bit at or beyond the layer count is set.
pub proof fn lemma_reversed_mask_bits(mask: u32, layer_count: u32, i: u32)
    requires
        1 <= layer_count <= 32,
        i < 32,
    ensures
        mask_bit(reversed_mask(mask, layer_count), i) == (i < layer_count && mask_bit(
            mask,
            (layer_count - 1 - i) as u32,
        )),
{
    assert(1 <= layer_count <= 32 && i < 32 ==> mask_bit(reversed_mask(mask, layer_count), i) == (i
        < layer_count && mask_bit(mask, (layer_count - 1 - i) as u32))) by (bit_vector);
}

/// Reversing a mask twice gives the mask back, as long as the mask selects
/// only layers that the axis has; and the reversed mask does so too.
pub proof fn lemma_reversed_mask_involution(mask: u32, layer_count: u32)
    requires
        1 <= layer_count <= 32,
        fits_layers(mask, layer_count),
    ensures
        reversed_mask(reversed_mask(mask, layer_count), layer_count) == mask,
        fits_layers(reversed_mask(mask, layer_count), layer_count),
{
    assert(1 <= layer_count <= 32 && fits_layers(mask, layer_count) ==> reversed_mask(
        reversed_mask(mask, layer_count),
        layer_count,
    ) == mask && fits_layers(reversed_mask(mask, layer_count), layer_count)) by (bit_vector);
}

/// `x` with its 32 bits in the opposite order.
pub fn reverse_bits(x: u32) -> (r: u32)
    ensures
        r == reverse_bits_spec(x),
{
    let x = ((x >> 1) & 0x5555_5555) | ((x & 0x5555_5555) << 1);
    let x = ((x >> 2) & 0x3333_3333) | ((x & 0x3333_3333) << 2);
    let x = ((x >> 4) & 0x0f0f_0f0f) | ((x & 0x0f0f_0f0f) << 4);
    let x = ((x >> 8) & 0x00ff_00ff) | ((x & 0x00ff_00ff) << 8);
    (x >> 16) | (x << 16)
}

impl LayerMask {
    /// Whether the mask selects only layers of an axis with `layer_count`
    /// layers.
    pub fn fits(self, layer_count: u8) -> (r: bool)
        ensures
            r == fits_layers(self.0, layer_count as u32),
    {
        layer_count >= 32 || (self.0 >> (layer_count as u32)) == 0
    }

    /// The same layers counted from the other end of an axis with
    /// `layer_count` layers.
    pub fn reversed(self, layer_count: u8) -> (r: LayerMask)
        requires
            1 <= layer_count <= 32,
        ensures
            r.0 == reversed_mask(self.0, layer_count as u32),
    {
        LayerMask(reverse_bits(self.0) >> (32 - layer_count as u32))
    }
}

} // verus!
