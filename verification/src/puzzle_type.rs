//! The finished puzzle: its elements by ID, and the algebra of its twists.

use crate::axis_system::is_layer_stack;
use crate::collections::{PerAxis, PerFacet, PerPiece, PerPieceType, PerSticker, PerTwist};
use crate::color_system::ColorSystem;
use crate::ids::{Color, IndexNewtype, Twist};
use crate::info::{
    piece_infos_view,
    AxisInfo,
    FacetInfo,
    PieceInfo,
    PieceInfoView,
    PieceTypeInfo,
    StickerInfo,
    TwistInfo,
};
use crate::layer_mask::{
    fits_layers,
    lemma_reversed_mask_involution,
    reversed_mask,
    LayerMask,
    LAYER_MASK_BITS,
};
use crate::twist_system::{
    is_twist_system,
    lemma_opposite_is_involution,
    lemma_reverse_is_involution,
    opposite_of,
    reverse_of,
};
use vstd::prelude::*;

verus! {

/// A move: a twist applied to some layers of its axis.
#[derive(Debug, Clone, Copy, PartialEq, Eq, Structural, Hash)]
pub struct LayeredTwist {
    /// Layers of the twist's axis that turn.
    pub layers: LayerMask,
    /// The twist.
    pub transform: Twist,
}

/// The order in which moves are compared for a canonical form: the move
/// with the smaller layer mask comes first, and of two moves with the same
/// layer mask the one whose twist was created first.
pub open spec fn precedes(a: LayeredTwist, b: LayeredTwist) -> bool {
    a.layers.0 < b.layers.0 || (a.layers.0 == b.layers.0 && a.transform.0 <= b.transform.0)
}

/// Whether the twists and the axes fit together: the twists are those of a
/// finished puzzle, each on an axis that exists and has a proper stack of
/// layers, and a twist and its opposite lie on axes with equally many
/// layers.
pub open spec fn twists_fit_axes(twists: Seq<TwistInfo>, axes: Seq<AxisInfo>) -> bool {
    &&& is_twist_system(twists)
    &&& forall|a: int| 0 <= a < axes.len() ==> is_layer_stack((#[trigger] axes[a]).layers@)
    &&& forall|i: int|
        0 <= i < twists.len() ==> (#[trigger] twists[i]).axis.index_spec() < axes.len()
    &&& forall|i: int|
        0 <= i < twists.len() ==> ((#[trigger] twists[i]).opposite matches Some(o) ==> axes[twists[o.index_spec() as int].axis.index_spec() as int].layers@.len()
            == axes[twists[i].axis.index_spec() as int].layers@.len())
}

/// Number of layers of the axis of twist `t`.
pub open spec fn layer_count_of(twists: Seq<TwistInfo>, axes: Seq<AxisInfo>, t: Twist) -> nat {
    axes[twists[t.index_spec() as int].axis.index_spec() as int].layers@.len()
}

/// The move that undoes `m`: the reverse twist on the same layers.
pub open spec fn reverse_move(twists: Seq<TwistInfo>, m: LayeredTwist) -> LayeredTwist {
    LayeredTwist { layers: m.layers, transform: reverse_of(twists, m.transform) }
}

/// The move that does the same as `m` from the other side: the opposite
/// twist on the same layers, counted from the other end of the axis.
pub open spec fn opposite_move(
    twists: Seq<TwistInfo>,
    axes: Seq<AxisInfo>,
    m: LayeredTwist,
) -> LayeredTwist
    recommends
        opposite_of(twists, m.transform) is Some,
{
    LayeredTwist {
        layers: LayerMask(
            reversed_mask(m.layers.0, layer_count_of(twists, axes, m.transform) as u32),
        ),
        transform: opposite_of(twists, m.transform)->0,
    }
}

/// The canonical form of `m`: of `m` and its opposite move the one that
/// comes first, or `m` itself when its twist has no opposite.
pub open spec fn canonical_move(
    twists: Seq<TwistInfo>,
    axes: Seq<AxisInfo>,
    m: LayeredTwist,
) -> LayeredTwist {
    if opposite_of(twists, m.transform) is Some {
        let other = opposite_move(twists, axes, m);
        if precedes(m, other) {
            m
        } else {
            other
        }
    } else {
        m
    }
}

/// Undoing the move that undoes a move is the move itself.
pub proof fn lemma_reverse_move_is_involution(twists: Seq<TwistInfo>, m: LayeredTwist)
    requires
        is_twist_system(twists),
        m.transform.index_spec() < twists.len(),
    ensures
        reverse_move(twists, m).transform.index_spec() < twists.len(),
        reverse_move(twists, reverse_move(twists, m)) == m,
{
    lemma_reverse_is_involution(twists, m.transform);
}

/// A move and its opposite move have the same canonical form, and the
/// opposite of the opposite move is the move: this holds for a move on
/// layers that its axis has, on an axis whose layers a mask can hold.
pub proof fn lemma_opposite_moves_share_canonical_form(
    twists: Seq<TwistInfo>,
    axes: Seq<AxisInfo>,
    m: LayeredTwist,
)
    requires
        twists_fit_axes(twists, axes),
        m.transform.index_spec() < twists.len(),
        opposite_of(twists, m.transform) is Some,
        layer_count_of(twists, axes, m.transform) <= LAYER_MASK_BITS,
        fits_layers(m.layers.0, layer_count_of(twists, axes, m.transform) as u32),
    ensures
        opposite_of(twists, opposite_of(twists, m.transform)->0) == Some(m.transform),
        opposite_move(twists, axes, opposite_move(twists, axes, m)) == m,
        canonical_move(twists, axes, opposite_move(twists, axes, m)) == canonical_move(
            twists,
            axes,
            m,
        ),
{
    let i = m.transform.index_spec() as int;
    let o = twists[i].opposite->0;
    let n = layer_count_of(twists, axes, m.transform);
    let other = opposite_move(twists, axes, m);
    lemma_opposite_is_involution(twists, m.transform);
    assert(twists[i].axis.index_spec() < axes.len());
    assert(is_layer_stack(axes[twists[i].axis.index_spec() as int].layers@));
    assert(layer_count_of(twists, axes, o) == n);
    lemma_reversed_mask_involution(m.layers.0, n as u32);
    assert(opposite_move(twists, axes, other) == m);
    if precedes(m, other) && precedes(other, m) {
        assert(m.transform.0 == other.transform.0);
        assert(m == other);
    }
}

/// The canonical form of a move is its own canonical form: this holds for a
/// move without an opposite, and for a move on layers that its axis has, on
/// an axis whose layers a mask can hold.
pub proof fn lemma_canonical_move_is_canonical(
    twists: Seq<TwistInfo>,
    axes: Seq<AxisInfo>,
    m: LayeredTwist,
)
    requires
        twists_fit_axes(twists, axes),
        m.transform.index_spec() < twists.len(),
        opposite_of(twists, m.transform) is Some ==> layer_count_of(twists, axes, m.transform)
            <= LAYER_MASK_BITS && fits_layers(
            m.layers.0,
            layer_count_of(twists, axes, m.transform) as u32,
        ),
    ensures
        canonical_move(twists, axes, canonical_move(twists, axes, m)) == canonical_move(
            twists,
            axes,
            m,
        ),
{
    if opposite_of(twists, m.transform) is Some {
        lemma_opposite_moves_share_canonical_form(twists, axes, m);
    }
}

/// Whether the pieces and the stickers fit together: every sticker of a
/// piece exists and names that piece as its piece, and every sticker is
/// among the stickers of its piece.
pub open spec fn pieces_fit_stickers(pieces: Seq<PieceInfoView>, stickers: Seq<StickerInfo>) -> bool {
    &&& forall|p: int, k: int|
        0 <= p < pieces.len() && 0 <= k < pieces[p].stickers.len() ==> {
            let s = (#[trigger] pieces[p].stickers[k]).index_spec() as int;
            &&& s < stickers.len()
            &&& stickers[s].piece.index_spec() == p
        }
    &&& forall|s: int|
        0 <= s < stickers.len() ==> {
            let p = (#[trigger] stickers[s]).piece.index_spec() as int;
            &&& p < pieces.len()
            &&& exists|k: int|
                0 <= k < pieces[p].stickers.len() && (#[trigger] pieces[p].stickers[k]).index_spec()
                    == s
        }
}

/// A finished puzzle.
#[derive(Debug)]
pub struct PuzzleType {
    /// Human-friendly name of the puzzle.
    pub name: String,
    /// Number of dimensions of the space that the puzzle lives in.
    pub ndim: u8,
    /// Facets of the base shape, by ID.
    pub facets: PerFacet<FacetInfo>,
    /// Colors.
    pub colors: ColorSystem,
    /// Twist axes, by ID.
    pub axes: PerAxis<AxisInfo>,
    /// Twists, by ID.
    pub twists: PerTwist<TwistInfo>,
    /// Pieces, by ID.
    pub pieces: PerPiece<PieceInfo>,
    /// Stickers, by ID.
    pub stickers: PerSticker<StickerInfo>,
    /// Piece types, by ID.
    pub piece_types: PerPieceType<PieceTypeInfo>,
    /// Number of moves for a full scramble.
    pub scramble_moves_count: usize,
}

impl PuzzleType {
    /// The puzzle is consistent: the twists fit the axes; the pieces and
    /// the stickers fit together; every sticker has a color of the puzzle
    /// or the internal color; and every piece has a piece type of the
    /// puzzle.
    pub open spec fn wf(&self) -> bool {
        &&& self.facets.wf()
        &&& self.colors.list.wf()
        &&& self.axes.wf()
        &&& self.twists.wf()
        &&& self.pieces.wf()
        &&& self.stickers.wf()
        &&& self.piece_types.wf()
        &&& twists_fit_axes(self.twists@, self.axes@)
        &&& pieces_fit_stickers(piece_infos_view(self.pieces@), self.stickers@)
        &&& forall|s: int|
            0 <= s < self.stickers@.len() ==> {
                let color = (#[trigger] self.stickers@[s]).color;
                color.index_spec() < self.colors.list@.len() || color == Color(u16::MAX)
            }
        &&& forall|p: int|
            0 <= p < self.pieces@.len() ==> (#[trigger] self.pieces@[p]).piece_type.index_spec()
                < self.piece_types@.len()
    }

    /// Whether `m` is a move of this puzzle: its twist exists.
    pub open spec fn is_move(&self, m: LayeredTwist) -> bool {
        self.twists.has(m.transform)
    }

    /// Returns the number of dimensions.
    pub fn ndim(&self) -> (r: u8)
        ensures
            r == self.ndim,
    {
        self.ndim
    }

    /// Returns the reverse of a twist.
    pub fn reverse_twist(&self, twist: LayeredTwist) -> (r: LayeredTwist)
        requires
            self.is_move(twist),
        ensures
            r == reverse_move(self.twists@, twist),
    {
        LayeredTwist { layers: twist.layers, transform: self.twists.at(twist.transform).reverse }
    }

    /// Canonicalizes a twist.
    ///
    /// Of the move and its opposite move, which does the same to the puzzle,
    /// this is the one with the smaller layer mask and, where the masks are
    /// equal, the one whose twist was created first. A move whose twist has
    /// no opposite is its own canonical form.
    pub fn canonicalize_twist(&self, twist: LayeredTwist) -> (r: LayeredTwist)
        requires
            twists_fit_axes(self.twists@, self.axes@),
            self.is_move(twist),
            opposite_of(self.twists@, twist.transform) is Some ==> layer_count_of(
                self.twists@,
                self.axes@,
                twist.transform,
            ) <= LAYER_MASK_BITS,
        ensures
            r == canonical_move(self.twists@, self.axes@, twist),
    {
        let info = self.twists.at(twist.transform);
        match info.opposite {
            Some(opposite) => {
                assert(info.axis.index_spec() < self.axes@.len());
                assert(is_layer_stack(self.axes@[info.axis.index_spec() as int].layers@));
                let layer_count = self.axes.at(info.axis).layers.len();
                let other = LayeredTwist {
                    layers: twist.layers.reversed(layer_count as u8),
                    transform: opposite,
                };
                let first = twist.layers.0 < other.layers.0 || (twist.layers.0 == other.layers.0
                    && twist.transform.0 <= other.transform.0);
                if first {
                    twist
                } else {
                    other
                }
            },
            None => twist,
        }
    }
}

} // verus!
