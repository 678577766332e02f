//! The finished, read-only description of a puzzle's elements.

use crate::collections::PerLayer;
use crate::colors::DefaultColor;
use crate::ids::{Axis, Color, Piece, PieceType, Sticker, Twist};
use smallvec::SmallVec;
use vstd::prelude::*;

verus! {

/// Reference to a boundary surface that the geometry engine holds: a
/// hyperplane, or a curved surface, that cuts or bounds the puzzle.
#[derive(Debug, Clone, Copy, PartialEq, Eq, Structural, Hash)]
pub struct ManifoldRef(pub u32);

/// Reference to a rigid transformation that the geometry engine holds.
#[derive(Debug, Clone, Copy, PartialEq, Eq, Structural, Hash)]
pub struct IsometryId(pub u32);

/// Reference to a convex region that the geometry engine holds and that no
/// cut divides.
#[derive(Debug, Clone, Copy, PartialEq, Eq, Structural, Hash)]
pub struct AtomicPolytopeRef(pub u32);

/// The stickers of a piece, in a `SmallVec` that holds up to eight stickers
/// without an allocation.
#[verifier::external_body]
#[derive(Debug, PartialEq, Eq)]
pub struct StickerList {
    items: SmallVec<[Sticker; 8]>,
}

/// The stickers that a list holds, in the list's order.
pub uninterp spec fn sticker_list(stickers: StickerList) -> Seq<Sticker>;

/// `SmallVec::new`: a list without items.
#[verifier::external_body]
pub(crate) fn sticker_list_new() -> (r: StickerList)
    ensures
        sticker_list(r) == Seq::<Sticker>::empty(),
{
    StickerList { items: SmallVec::new() }
}

/// `SmallVec::push`: appends an item to the list.
#[verifier::external_body]
pub(crate) fn sticker_list_push(stickers: &mut StickerList, sticker: Sticker)
    ensures
        sticker_list(*final(stickers)) == sticker_list(*old(stickers)).push(sticker),
{
    stickers.items.push(sticker);
}

/// `Clone` of `SmallVec`: a list that holds the same items in the same
/// order.
#[verifier::external_body]
pub(crate) fn sticker_list_clone(stickers: &StickerList) -> (r: StickerList)
    ensures
        sticker_list(r) == sticker_list(*stickers),
{
    StickerList { items: stickers.items.clone() }
}

/// `SmallVec::as_slice`: the items of the list, in order; here copied into
/// a vector.
#[verifier::external_body]
pub(crate) fn sticker_list_to_vec(stickers: &StickerList) -> (r: Vec<Sticker>)
    ensures
        r@ == sticker_list(*stickers),
{
    stickers.items.as_slice().to_vec()
}

/// Piece info.
#[derive(Debug, PartialEq, Eq)]
pub struct PieceInfo {
    /// Stickers on the piece, in no particular order.
    pub stickers: StickerList,
    /// Piece type.
    pub piece_type: PieceType,
    /// Region of space that the piece fills.
    pub polytope: AtomicPolytopeRef,
}

/// Sticker info.
#[derive(Debug, Clone, Copy, PartialEq, Eq, Structural)]
pub struct StickerInfo {
    /// Piece that the sticker is part of.
    pub piece: Piece,
    /// Color on the sticker.
    pub color: Color,
}

/// Facet info.
#[derive(Debug, Clone, PartialEq, Eq)]
pub struct FacetInfo {
    /// Human-friendly name for the facet. (e.g., "Up", "Right", etc.)
    pub name: String,
    /// Default color of the facet, as a reference into the global palette.
    pub default_color: Option<DefaultColor>,
}

/// Layer info.
#[derive(Debug, Clone, Copy, PartialEq, Eq, Structural)]
pub struct LayerInfo {
    /// Manifold that bounds the bottom of the layer.
    pub bottom: ManifoldRef,
    /// Manifold that bounds the top of the layer, if any.
    pub top: Option<ManifoldRef>,
}

/// Twist axis info.
#[derive(Debug, Clone, PartialEq, Eq)]
pub struct AxisInfo {
    /// Human-friendly name for the twist axis. (e.g, "U", "R", etc.)
    pub name: String,
    /// Layers of the axis, from the innermost to the outermost.
    pub layers: PerLayer<LayerInfo>,
}

/// Twist info.
#[derive(Debug, Clone, PartialEq, Eq)]
pub struct TwistInfo {
    /// Human-friendly name for the twist. (e.g., "U2", "R'", etc.)
    pub name: String,
    /// Value of this twist in quarter turn metric.
    pub qtm: usize,
    /// Twist axis to use to determine which pieces are moved by the twist.
    pub axis: Axis,
    /// Transformation to apply to pieces.
    pub transform: IsometryId,
    /// Opposite twist. With a reversed layer mask, this applies the same
    /// transformation to the same pieces. For example, R and L' are opposite
    /// twists on a 3x3x3.
    pub opposite: Option<Twist>,
    /// Reverse twist, which undoes this one.
    pub reverse: Twist,
}

/// Piece type info.
#[derive(Debug, Clone, PartialEq, Eq, Hash)]
pub struct PieceTypeInfo {
    /// Name of the piece type.
    pub name: String,
}

/// Color info.
#[derive(Debug, Clone, PartialEq, Eq, Hash)]
pub struct ColorInfo {
    /// User-facing color name.
    pub name: String,
    /// Optional reference selecting a default color from the global color
    /// palette.
    pub default_color: Option<DefaultColor>,
}

/// What a finished piece is in contracts.
pub struct PieceInfoView {
    /// Stickers on the piece.
    pub stickers: Seq<Sticker>,
    /// Piece type.
    pub piece_type: PieceType,
    /// Region of space that the piece fills.
    pub polytope: AtomicPolytopeRef,
}

impl View for PieceInfo {
    type V = PieceInfoView;

    open spec fn view(&self) -> PieceInfoView {
        PieceInfoView {
            stickers: sticker_list(self.stickers),
            piece_type: self.piece_type,
            polytope: self.polytope,
        }
    }
}

impl PieceInfo {
    /// Piece with the stickers, the type and the region given.
    pub fn new(stickers: &Vec<Sticker>, piece_type: PieceType, polytope: AtomicPolytopeRef) -> (r:
        Self)
        ensures
            r@ == (PieceInfoView { stickers: stickers@, piece_type, polytope }),
    {
        let mut list = sticker_list_new();
        let mut i: usize = 0;
        while i < stickers.len()
            invariant
                i <= stickers@.len(),
                sticker_list(list) =~= stickers@.take(i as int),
            decreases stickers@.len() - i,
        {
            sticker_list_push(&mut list, stickers[i]);
            i += 1;
        }
        assert(stickers@.take(i as int) =~= stickers@);
        PieceInfo { stickers: list, piece_type, polytope }
    }

    /// The stickers on the piece, in a vector.
    pub fn sticker_ids(&self) -> (r: Vec<Sticker>)
        ensures
            r@ == self@.stickers,
    {
        sticker_list_to_vec(&self.stickers)
    }
}

impl Clone for PieceInfo {
    fn clone(&self) -> (r: Self)
        ensures
            r@ == self@,
    {
        PieceInfo {
            stickers: sticker_list_clone(&self.stickers),
            piece_type: self.piece_type,
            polytope: self.polytope,
        }
    }
}

/// What a list of finished pieces is in contracts.
pub open spec fn piece_infos_view(pieces: Seq<PieceInfo>) -> Seq<PieceInfoView> {
    pieces.map_values(|piece: PieceInfo| piece@)
}

} // verus!
