//! The pieces of a puzzle while it is being described, and what a cut does
//! to them.
//!
//! The geometry engine cuts regions of space; the library keeps the books.
//! For each piece that a cut meets, the caller hands over what the engine
//! found, and the piece is replaced by its parts, which inherit its stickers
//! and get the color of the cut on their new face.

use crate::collections::{PerPiece, PerSticker};
use crate::ids::{
    Color,
    IndexNewtype,
    IndexOutOfRange,
    IndexOverflow,
    Piece,
    PieceType,
    Sticker,
};
use crate::info::{
    piece_infos_view,
    sticker_list,
    sticker_list_new,
    sticker_list_push,
    AtomicPolytopeRef,
    ManifoldRef,
    PieceInfo,
    PieceInfoView,
    StickerInfo,
};
use crate::puzzle_type::pieces_fit_stickers;
use vstd::prelude::*;

verus! {

/// A sticker of a piece that is being described: a face of the piece.
#[derive(Debug, Clone, Copy, PartialEq, Eq, Structural)]
pub struct StickerBuilder {
    /// Surface on which the face lies.
    pub manifold: ManifoldRef,
    /// Color of the face; the reserved internal color for a face inside the
    /// puzzle.
    pub color: Color,
}

/// A piece that is being described.
#[derive(Debug, Clone, PartialEq, Eq)]
pub struct PieceBuilder {
    /// Region of space that the piece fills.
    pub polytope: AtomicPolytopeRef,
    /// Faces of the piece.
    pub stickers: Vec<StickerBuilder>,
    /// Piece type.
    pub piece_type: PieceType,
    /// Whether the piece is part of the puzzle. A piece that a cut divided,
    /// or that was carved away, stays in the list and is no longer part of
    /// the puzzle.
    pub is_active: bool,
}

/// What a piece that is being described is in contracts.
pub struct PieceView {
    /// Region of space that the piece fills.
    pub polytope: AtomicPolytopeRef,
    /// Faces of the piece.
    pub stickers: Seq<StickerBuilder>,
    /// Piece type.
    pub piece_type: PieceType,
    /// Whether the piece is part of the puzzle.
    pub is_active: bool,
}

impl View for PieceBuilder {
    type V = PieceView;

    open spec fn view(&self) -> PieceView {
        PieceView {
            polytope: self.polytope,
            stickers: self.stickers@,
            piece_type: self.piece_type,
            is_active: self.is_active,
        }
    }
}

/// What a list of pieces is in contracts.
pub open spec fn pieces_view(pieces: Seq<PieceBuilder>) -> Seq<PieceView> {
    pieces.map_values(|piece: PieceBuilder| piece@)
}

/// A region that the geometry engine reports: the region itself and the
/// surfaces that bound it.
#[derive(Debug, Clone, PartialEq, Eq)]
pub struct RegionInfo {
    /// The region.
    pub polytope: AtomicPolytopeRef,
    /// The surfaces on which the faces of the region lie.
    pub boundary: Vec<ManifoldRef>,
}

/// What the geometry engine found when it cut one piece: the part of the
/// piece inside the cut and the part outside, where there is one.
#[derive(Debug, Clone, PartialEq, Eq)]
pub struct PieceCut {
    /// The part inside the cut.
    pub inside: Option<RegionInfo>,
    /// The part outside the cut.
    pub outside: Option<RegionInfo>,
}

/// What has become of a piece that was cut: the piece that fills the part
/// inside the cut and the piece that fills the part outside.
#[derive(Debug, Clone, Copy, PartialEq, Eq, Structural)]
pub struct CutOutcome {
    /// The piece inside the cut, if any.
    pub inside: Option<Piece>,
    /// The piece outside the cut, if any.
    pub outside: Option<Piece>,
}

/// Why the pieces cannot be changed as asked.
#[derive(Debug, Clone, Copy, PartialEq, Eq, Structural)]
pub enum PieceError {
    /// The piece does not exist.
    NoSuchPiece(IndexOutOfRange),
    /// The piece is no longer part of the puzzle.
    InactivePiece {
        /// The piece.
        piece: Piece,
    },
    /// The color is neither a color of the puzzle nor the internal color.
    NoSuchColor {
        /// The color.
        color: Color,
    },
    /// The piece type does not exist.
    NoSuchPieceType {
        /// The piece type.
        piece_type: PieceType,
    },
    /// No piece ID is left for the parts of the piece.
    TooManyPieces(IndexOverflow),
}

/// Color of the first sticker that lies on the surface, if there is one.
pub open spec fn color_on(stickers: Seq<StickerBuilder>, manifold: ManifoldRef) -> Option<Color>
    decreases stickers.len(),
{
    if stickers.len() == 0 {
        None
    } else {
        match color_on(stickers.drop_last(), manifold) {
            Some(color) => Some(color),
            None => if stickers.last().manifold == manifold {
                Some(stickers.last().color)
            } else {
                None
            },
        }
    }
}

/// The sticker that a part of a piece gets on one of its surfaces: on the
/// surface of the cut the color that the cut gives to this side; on a
/// surface on which the piece had a sticker, the color of that sticker;
/// and on any other surface the internal color.
pub open spec fn inherited_sticker(
    stickers: Seq<StickerBuilder>,
    manifold: ManifoldRef,
    cut: ManifoldRef,
    cut_color: Color,
) -> StickerBuilder {
    StickerBuilder {
        manifold,
        color: if manifold == cut {
            cut_color
        } else {
            match color_on(stickers, manifold) {
                Some(color) => color,
                None => Color(u16::MAX),
            }
        },
    }
}

/// The stickers of a part of a piece: one on each surface of its boundary.
pub open spec fn inherited_stickers(
    stickers: Seq<StickerBuilder>,
    boundary: Seq<ManifoldRef>,
    cut: ManifoldRef,
    cut_color: Color,
) -> Seq<StickerBuilder> {
    boundary.map_values(|manifold: ManifoldRef| inherited_sticker(stickers, manifold, cut, cut_color))
}

/// Whether a color can stand on a sticker of a puzzle with `color_count`
/// colors: it is one of them, or the internal color.
pub open spec fn is_sticker_color(color: Color, color_count: nat) -> bool {
    color.index_spec() < color_count || color == Color(u16::MAX)
}

/// Color of the first sticker that lies on the surface, if there is one.
pub fn find_color_on(stickers: &Vec<StickerBuilder>, manifold: ManifoldRef) -> (r: Option<Color>)
    ensures
        r == color_on(stickers@, manifold),
{
    let mut i: usize = 0;
    assert(stickers@.take(0) =~= Seq::empty());
    while i < stickers.len()
        invariant
            i <= stickers@.len(),
            color_on(stickers@.take(i as int), manifold) is None,
        decreases stickers@.len() - i,
    {
        assert(stickers@.take(i as int + 1).drop_last() =~= stickers@.take(i as int));
        if stickers[i].manifold == manifold {
            proof {
                lemma_color_on_prefix(stickers@, manifold, i as int + 1);
            }
            return Some(stickers[i].color);
        }
        i += 1;
    }
    assert(stickers@.take(i as int) =~= stickers@);
    None
}

/// Once a prefix of the stickers holds one on the surface, the color is
/// settled.
pub proof fn lemma_color_on_prefix(stickers: Seq<StickerBuilder>, manifold: ManifoldRef, k: int)
    requires
        0 <= k <= stickers.len(),
        color_on(stickers.take(k), manifold) is Some,
    ensures
        color_on(stickers, manifold) == color_on(stickers.take(k), manifold),
    decreases stickers.len() - k,
{
    if k < stickers.len() {
        assert(stickers.take(k + 1).drop_last() =~= stickers.take(k));
        lemma_color_on_prefix(stickers, manifold, k + 1);
    } else {
        assert(stickers.take(k) =~= stickers);
    }
}

/// The stickers of a part of a piece: one on each surface of its boundary.
pub fn inherit_stickers(
    stickers: &Vec<StickerBuilder>,
    boundary: &Vec<ManifoldRef>,
    cut: ManifoldRef,
    cut_color: Color,
) -> (r: Vec<StickerBuilder>)
    ensures
        r@ == inherited_stickers(stickers@, boundary@, cut, cut_color),
{
    let mut out: Vec<StickerBuilder> = Vec::new();
    let mut i: usize = 0;
    while i < boundary.len()
        invariant
            i <= boundary@.len(),
            out@ =~= inherited_stickers(stickers@, boundary@, cut, cut_color).take(i as int),
        decreases boundary@.len() - i,
    {
        let manifold = boundary[i];
        let color = if manifold == cut {
            cut_color
        } else {
            match find_color_on(stickers, manifold) {
                Some(color) => color,
                None => Color::internal(),
            }
        };
        out.push(StickerBuilder { manifold, color });
        i += 1;
    }
    assert(inherited_stickers(stickers@, boundary@, cut, cut_color).take(i as int)
        =~= inherited_stickers(stickers@, boundary@, cut, cut_color));
    out
}

/// What a reported region is in contracts.
pub struct RegionView {
    /// The region.
    pub polytope: AtomicPolytopeRef,
    /// The surfaces on which the faces of the region lie.
    pub boundary: Seq<ManifoldRef>,
}

impl View for RegionInfo {
    type V = RegionView;

    open spec fn view(&self) -> RegionView {
        RegionView { polytope: self.polytope, boundary: self.boundary@ }
    }
}

/// What an optional region is in contracts.
pub open spec fn opt_region_view(region: Option<RegionInfo>) -> Option<RegionView> {
    match region {
        Some(region) => Some(region@),
        None => None,
    }
}

/// The piece that fills a part of a piece after a cut: it has the region of
/// the part, stickers on the surfaces of that region, the type of the piece
/// that was cut, and it is part of the puzzle.
pub open spec fn part_of(
    piece: PieceView,
    region: RegionView,
    cut: ManifoldRef,
    cut_color: Color,
) -> PieceView {
    PieceView {
        polytope: region.polytope,
        stickers: inherited_stickers(piece.stickers, region.boundary, cut, cut_color),
        piece_type: piece.piece_type,
        is_active: true,
    }
}

/// The piece as it stays in the list once it is no longer part of the
/// puzzle.
pub open spec fn retired(piece: PieceView) -> PieceView {
    PieceView {
        polytope: piece.polytope,
        stickers: piece.stickers,
        piece_type: piece.piece_type,
        is_active: false,
    }
}

/// The pieces after piece `p` has been cut. A piece that lies on one side
/// keeps its ID and takes the region and the stickers that the engine
/// reports for it. A piece that the cut divides is retired, and its two
/// parts come last, the inside part first. A piece of which nothing is
/// left is retired.
pub open spec fn pieces_after_cut(
    pieces: Seq<PieceView>,
    p: int,
    cut: ManifoldRef,
    inside: Option<RegionView>,
    outside: Option<RegionView>,
    inside_color: Color,
    outside_color: Color,
) -> Seq<PieceView> {
    match (inside, outside) {
        (None, None) => pieces.update(p, retired(pieces[p])),
        (Some(region), None) => pieces.update(p, part_of(pieces[p], region, cut, inside_color)),
        (None, Some(region)) => pieces.update(p, part_of(pieces[p], region, cut, outside_color)),
        (Some(a), Some(b)) => pieces.update(p, retired(pieces[p])).push(
            part_of(pieces[p], a, cut, inside_color),
        ).push(part_of(pieces[p], b, cut, outside_color)),
    }
}

/// The pieces that fill the two sides after piece `p` of `count` pieces has
/// been cut.
pub open spec fn outcome_of_cut(
    count: nat,
    p: Piece,
    inside: Option<RegionView>,
    outside: Option<RegionView>,
) -> CutOutcome {
    match (inside, outside) {
        (None, None) => CutOutcome { inside: None, outside: None },
        (Some(_), None) => CutOutcome { inside: Some(p), outside: None },
        (None, Some(_)) => CutOutcome { inside: None, outside: Some(p) },
        (Some(_), Some(_)) => CutOutcome {
            inside: Some(Piece(count as u16)),
            outside: Some(Piece((count + 1) as u16)),
        },
    }
}

/// Why piece `p` cannot be cut, if it cannot: it does not exist, it is no
/// longer part of the puzzle, a color for the new face is no color of the
/// puzzle, or the piece IDs do not suffice for two parts.
pub open spec fn cut_fault(
    pieces: Seq<PieceView>,
    color_count: nat,
    p: Piece,
    inside: Option<RegionView>,
    outside: Option<RegionView>,
    inside_color: Color,
    outside_color: Color,
) -> Option<PieceError> {
    if p.index_spec() >= pieces.len() {
        Some(
            PieceError::NoSuchPiece(
                IndexOutOfRange { index: p.index_spec() as usize, len: pieces.len() as usize },
            ),
        )
    } else if !pieces[p.index_spec() as int].is_active {
        Some(PieceError::InactivePiece { piece: p })
    } else if !is_sticker_color(inside_color, color_count) {
        Some(PieceError::NoSuchColor { color: inside_color })
    } else if !is_sticker_color(outside_color, color_count) {
        Some(PieceError::NoSuchColor { color: outside_color })
    } else if inside is Some && outside is Some && pieces.len() + 2 > Piece::max_index_spec() + 1 {
        Some(PieceError::TooManyPieces(IndexOverflow { max_index: 65535 }))
    } else {
        None
    }
}

/// Whether the pieces fit a puzzle with `color_count` colors and
/// `type_count` piece types: every piece has one of the types, and every
/// sticker one of the colors or the internal color.
pub open spec fn pieces_are_valid(pieces: Seq<PieceView>, color_count: nat, type_count: nat) -> bool {
    forall|p: int|
        0 <= p < pieces.len() ==> {
            &&& (#[trigger] pieces[p]).piece_type.index_spec() < type_count
            &&& forall|k: int|
                0 <= k < pieces[p].stickers.len() ==> is_sticker_color(
                    (#[trigger] pieces[p].stickers[k]).color,
                    color_count,
                )
        }
}

/// A sticker on a surface has the color of one of the stickers.
pub proof fn lemma_color_on_is_a_sticker_color(
    stickers: Seq<StickerBuilder>,
    manifold: ManifoldRef,
    color_count: nat,
)
    requires
        forall|k: int|
            0 <= k < stickers.len() ==> is_sticker_color((#[trigger] stickers[k]).color, color_count),
    ensures
        color_on(stickers, manifold) matches Some(color) ==> is_sticker_color(color, color_count),
    decreases stickers.len(),
{
    if stickers.len() > 0 {
        let shorter = stickers.drop_last();
        assert forall|k: int| 0 <= k < shorter.len() implies is_sticker_color(
            (#[trigger] shorter[k]).color,
            color_count,
        ) by {
            assert(shorter[k] == stickers[k]);
        }
        lemma_color_on_is_a_sticker_color(shorter, manifold, color_count);
        assert(stickers.last() == stickers[stickers.len() - 1]);
    }
}

/// The part of a valid piece is a valid piece.
pub proof fn lemma_part_is_valid(
    piece: PieceView,
    region: RegionView,
    cut: ManifoldRef,
    cut_color: Color,
    color_count: nat,
)
    requires
        forall|k: int|
            0 <= k < piece.stickers.len() ==> is_sticker_color(
                (#[trigger] piece.stickers[k]).color,
                color_count,
            ),
        is_sticker_color(cut_color, color_count),
    ensures
        forall|k: int|
            0 <= k < part_of(piece, region, cut, cut_color).stickers.len() ==> is_sticker_color(
                (#[trigger] part_of(piece, region, cut, cut_color).stickers[k]).color,
                color_count,
            ),
{
    let part = part_of(piece, region, cut, cut_color);
    assert forall|k: int| 0 <= k < part.stickers.len() implies is_sticker_color(
        (#[trigger] part.stickers[k]).color,
        color_count,
    ) by {
        lemma_color_on_is_a_sticker_color(piece.stickers, region.boundary[k], color_count);
    }
}

/// Cuts one piece, as the geometry engine found it cut: see
/// [`pieces_after_cut`]. Fails, and changes nothing, where [`cut_fault`]
/// says so.
pub fn cut_piece_in(
    pieces: &mut PerPiece<PieceBuilder>,
    color_count: usize,
    piece: Piece,
    cut: ManifoldRef,
    result: &PieceCut,
    inside_color: Color,
    outside_color: Color,
) -> (r: Result<CutOutcome, PieceError>)
    requires
        old(pieces).wf(),
    ensures
        final(pieces).wf(),
        r is Ok <==> cut_fault(
            pieces_view(old(pieces)@),
            color_count as nat,
            piece,
            opt_region_view(result.inside),
            opt_region_view(result.outside),
            inside_color,
            outside_color,
        ) is None,
        r matches Err(e) ==> final(pieces)@ == old(pieces)@ && Some(e) == cut_fault(
            pieces_view(old(pieces)@),
            color_count as nat,
            piece,
            opt_region_view(result.inside),
            opt_region_view(result.outside),
            inside_color,
            outside_color,
        ),
        r matches Ok(outcome) ==> {
            &&& pieces_view(final(pieces)@) == pieces_after_cut(
                pieces_view(old(pieces)@),
                piece.index_spec() as int,
                cut,
                opt_region_view(result.inside),
                opt_region_view(result.outside),
                inside_color,
                outside_color,
            )
            &&& outcome == outcome_of_cut(
                old(pieces)@.len(),
                piece,
                opt_region_view(result.inside),
                opt_region_view(result.outside),
            )
        },
{
    let ghost before = pieces_view(pieces@);
    let count = pieces.len();
    assert(Piece::max_index_spec() == 65535);
    if !pieces.contains_key(piece) {
        return Err(
            PieceError::NoSuchPiece(IndexOutOfRange { index: piece.to_usize(), len: count }),
        );
    }
    if !pieces.at(piece).is_active {
        return Err(PieceError::InactivePiece { piece });
    }
    if !(inside_color.to_usize() < color_count || inside_color.is_internal()) {
        return Err(PieceError::NoSuchColor { color: inside_color });
    }
    if !(outside_color.to_usize() < color_count || outside_color.is_internal()) {
        return Err(PieceError::NoSuchColor { color: outside_color });
    }
    let old_piece = pieces.at(piece);
    let polytope = old_piece.polytope;
    let piece_type = old_piece.piece_type;
    match (&result.inside, &result.outside) {
        (None, None) => {
            let stickers = old_piece.stickers.clone();
            let changed = pieces.set(
                piece,
                PieceBuilder { polytope, stickers, piece_type, is_active: false },
            );
            assert(pieces_view(pieces@) =~= before.update(
                piece.index_spec() as int,
                retired(before[piece.index_spec() as int]),
            ));
            Ok(CutOutcome { inside: None, outside: None })
        },
        (Some(region), None) => {
            let stickers = inherit_stickers(
                &old_piece.stickers,
                &region.boundary,
                cut,
                inside_color,
            );
            let changed = pieces.set(
                piece,
                PieceBuilder { polytope: region.polytope, stickers, piece_type, is_active: true },
            );
            assert(pieces_view(pieces@) =~= before.update(
                piece.index_spec() as int,
                part_of(before[piece.index_spec() as int], region@, cut, inside_color),
            ));
            Ok(CutOutcome { inside: Some(piece), outside: None })
        },
        (None, Some(region)) => {
            let stickers = inherit_stickers(
                &old_piece.stickers,
                &region.boundary,
                cut,
                outside_color,
            );
            let changed = pieces.set(
                piece,
                PieceBuilder { polytope: region.polytope, stickers, piece_type, is_active: true },
            );
            assert(pieces_view(pieces@) =~= before.update(
                piece.index_spec() as int,
                part_of(before[piece.index_spec() as int], region@, cut, outside_color),
            ));
            Ok(CutOutcome { inside: None, outside: Some(piece) })
        },
        (Some(a), Some(b)) => {
            if count > 65534 {
                return Err(PieceError::TooManyPieces(IndexOverflow { max_index: 65535 }));
            }
            let inside_stickers = inherit_stickers(
                &old_piece.stickers,
                &a.boundary,
                cut,
                inside_color,
            );
            let outside_stickers = inherit_stickers(
                &old_piece.stickers,
                &b.boundary,
                cut,
                outside_color,
            );
            let stickers = old_piece.stickers.clone();
            let changed = pieces.set(
                piece,
                PieceBuilder { polytope, stickers, piece_type, is_active: false },
            );
            let inside = pieces.push(
                PieceBuilder {
                    polytope: a.polytope,
                    stickers: inside_stickers,
                    piece_type,
                    is_active: true,
                },
            );
            let outside = pieces.push(
                PieceBuilder {
                    polytope: b.polytope,
                    stickers: outside_stickers,
                    piece_type,
                    is_active: true,
                },
            );
            assert(pieces_view(pieces@) =~= before.update(
                piece.index_spec() as int,
                retired(before[piece.index_spec() as int]),
            ).push(part_of(before[piece.index_spec() as int], a@, cut, inside_color)).push(
                part_of(before[piece.index_spec() as int], b@, cut, outside_color),
            ));
            match (inside, outside) {
                (Ok(inside), Ok(outside)) => {
                    proof {
                        Piece::index_is_injective(inside, Piece(count as u16));
                        Piece::index_is_injective(outside, Piece((count + 1) as u16));
                    }
                    Ok(CutOutcome { inside: Some(inside), outside: Some(outside) })
                },
                _ => unreached(),
            }
        },
    }
}

/// How many of the first `n` pieces are part of the puzzle.
pub open spec fn active_count(pieces: Seq<PieceView>, n: nat) -> nat
    decreases n,
{
    if n == 0 {
        0
    } else if pieces[n - 1].is_active {
        active_count(pieces, (n - 1) as nat) + 1
    } else {
        active_count(pieces, (n - 1) as nat)
    }
}

/// How many stickers those of the first `n` pieces have that are part of
/// the puzzle.
pub open spec fn sticker_total(pieces: Seq<PieceView>, n: nat) -> nat
    decreases n,
{
    if n == 0 {
        0
    } else if pieces[n - 1].is_active {
        sticker_total(pieces, (n - 1) as nat) + pieces[n - 1].stickers.len()
    } else {
        sticker_total(pieces, (n - 1) as nat)
    }
}

/// A piece as it stands in the finished puzzle, where its stickers have
/// the IDs from `first_sticker` on.
pub open spec fn finished_piece(piece: PieceView, first_sticker: nat) -> PieceInfoView {
    PieceInfoView {
        stickers: Seq::new(piece.stickers.len(), |j: int| Sticker((first_sticker + j) as u16)),
        piece_type: piece.piece_type,
        polytope: piece.polytope,
    }
}

/// The stickers of a piece as they stand in the finished puzzle, where the
/// piece has the ID `piece_id`.
pub open spec fn finished_stickers_of(piece: PieceView, piece_id: nat) -> Seq<StickerInfo> {
    piece.stickers.map_values(
        |sticker: StickerBuilder| StickerInfo { piece: Piece(piece_id as u16), color: sticker.color },
    )
}

/// The pieces of the finished puzzle that come from the first `n` pieces:
/// those that are part of the puzzle, in their order and with dense IDs.
pub open spec fn finished_pieces(pieces: Seq<PieceView>, n: nat) -> Seq<PieceInfoView>
    decreases n,
{
    if n == 0 {
        Seq::empty()
    } else {
        let before = finished_pieces(pieces, (n - 1) as nat);
        if pieces[n - 1].is_active {
            before.push(finished_piece(pieces[n - 1], sticker_total(pieces, (n - 1) as nat)))
        } else {
            before
        }
    }
}

/// The stickers of the finished puzzle that come from the first `n`
/// pieces: piece by piece, with dense IDs.
pub open spec fn finished_stickers(pieces: Seq<PieceView>, n: nat) -> Seq<StickerInfo>
    decreases n,
{
    if n == 0 {
        Seq::empty()
    } else {
        let before = finished_stickers(pieces, (n - 1) as nat);
        if pieces[n - 1].is_active {
            before + finished_stickers_of(pieces[n - 1], active_count(pieces, (n - 1) as nat))
        } else {
            before
        }
    }
}

/// The finished pieces and stickers are as many as were counted, and the
/// counts only grow.
pub proof fn lemma_finished_counts(pieces: Seq<PieceView>, n: nat)
    requires
        n <= pieces.len(),
    ensures
        finished_pieces(pieces, n).len() == active_count(pieces, n),
        finished_stickers(pieces, n).len() == sticker_total(pieces, n),
        active_count(pieces, n) <= n,
        sticker_total(pieces, n) <= sticker_total(pieces, pieces.len()),
    decreases pieces.len() - n,
{
    lemma_finished_counts_up_to(pieces, n);
    if n < pieces.len() {
        lemma_finished_counts(pieces, n + 1);
    }
}

proof fn lemma_finished_counts_up_to(pieces: Seq<PieceView>, n: nat)
    requires
        n <= pieces.len(),
    ensures
        finished_pieces(pieces, n).len() == active_count(pieces, n),
        finished_stickers(pieces, n).len() == sticker_total(pieces, n),
        active_count(pieces, n) <= n,
    decreases n,
{
    if n > 0 {
        lemma_finished_counts_up_to(pieces, (n - 1) as nat);
    }
}

/// The finished pieces and stickers fit together, and every finished
/// piece and sticker has what its builder had: this holds as long as the
/// IDs suffice.
pub proof fn lemma_finished_pieces_fit_stickers(pieces: Seq<PieceView>, n: nat)
    requires
        n <= pieces.len(),
        pieces.len() <= Piece::max_index_spec() + 1,
        sticker_total(pieces, n) <= Sticker::max_index_spec() + 1,
    ensures
        pieces_fit_stickers(finished_pieces(pieces, n), finished_stickers(pieces, n)),
    decreases n,
{
    assert(Piece::max_index_spec() == 65535);
    assert(Sticker::max_index_spec() == 65535);
    if n > 0 {
        let m = (n - 1) as nat;
        lemma_finished_counts_up_to(pieces, m);
        lemma_finished_counts_up_to(pieces, n);
        lemma_finished_pieces_fit_stickers(pieces, m);
        let before_pieces = finished_pieces(pieces, m);
        let before_stickers = finished_stickers(pieces, m);
        let after_pieces = finished_pieces(pieces, n);
        let after_stickers = finished_stickers(pieces, n);
        if pieces[n - 1].is_active {
            let total = sticker_total(pieces, m);
            let count = active_count(pieces, m);
            let piece = finished_piece(pieces[n - 1], total);
            let stickers = finished_stickers_of(pieces[n - 1], count);
            assert forall|p: int, k: int|
                0 <= p < after_pieces.len() && 0 <= k < after_pieces[p].stickers.len() implies {
                let s = (#[trigger] after_pieces[p].stickers[k]).index_spec() as int;
                &&& s < after_stickers.len()
                &&& after_stickers[s].piece.index_spec() == p
            } by {
                if p < before_pieces.len() {
                    assert(after_pieces[p] == before_pieces[p]);
                    let s = before_pieces[p].stickers[k].index_spec() as int;
                    assert(s < before_stickers.len());
                    assert(after_stickers[s] == before_stickers[s]);
                } else {
                    assert(after_pieces[p] == piece);
                    assert(piece.stickers[k] == Sticker((total + k) as u16));
                    assert(after_stickers[total + k] == stickers[k]);
                }
            }
            assert forall|s: int| 0 <= s < after_stickers.len() implies {
                let p = (#[trigger] after_stickers[s]).piece.index_spec() as int;
                &&& p < after_pieces.len()
                &&& exists|k: int|
                    0 <= k < after_pieces[p].stickers.len() && (
                    #[trigger] after_pieces[p].stickers[k]).index_spec() == s
            } by {
                if s < before_stickers.len() {
                    assert(after_stickers[s] == before_stickers[s]);
                    let p = before_stickers[s].piece.index_spec() as int;
                    assert(p < before_pieces.len());
                    assert(after_pieces[p] == before_pieces[p]);
                    let k = choose|k: int|
                        0 <= k < before_pieces[p].stickers.len() && (
                        #[trigger] before_pieces[p].stickers[k]).index_spec() == s;
                    assert(after_pieces[p].stickers[k].index_spec() == s);
                } else {
                    let k = s - total;
                    assert(after_stickers[s] == stickers[k]);
                    assert(after_pieces[count as int] == piece);
                    assert(piece.stickers[k].index_spec() == s);
                }
            }
        } else {
            assert(after_pieces == before_pieces);
            assert(after_stickers == before_stickers);
        }
    } else {
        assert(finished_pieces(pieces, n).len() == 0);
        assert(finished_stickers(pieces, n).len() == 0);
    }
}

/// Gives the pieces that are part of the puzzle, and their stickers, dense
/// IDs: the finished pieces and stickers. Fails when there are more
/// stickers than sticker IDs.
pub fn finish_pieces(pieces: &PerPiece<PieceBuilder>) -> (r: Result<
    (PerPiece<PieceInfo>, PerSticker<StickerInfo>),
    IndexOverflow,
>)
    requires
        pieces.wf(),
    ensures
        r is Ok <==> sticker_total(pieces_view(pieces@), pieces@.len()) <= Sticker::max_index_spec()
            + 1,
        r matches Ok(finished) ==> {
            &&& finished.0.wf()
            &&& finished.1.wf()
            &&& piece_infos_view(finished.0@) == finished_pieces(
                pieces_view(pieces@),
                pieces@.len(),
            )
            &&& finished.1@ == finished_stickers(pieces_view(pieces@), pieces@.len())
        },
        r matches Err(e) ==> e.max_index == Sticker::max_index_spec(),
{
    let ghost views = pieces_view(pieces@);
    let n = pieces.len();
    let mut out_pieces: PerPiece<PieceInfo> = PerPiece::new();
    let mut out_stickers: PerSticker<StickerInfo> = PerSticker::new();
    let mut i: usize = 0;
    assert(Piece::max_index_spec() == 65535);
    assert(Sticker::max_index_spec() == 65535);
    while i < n
        invariant
            pieces.wf(),
            n == pieces@.len(),
            views == pieces_view(pieces@),
            i <= n,
            out_pieces.wf(),
            out_stickers.wf(),
            piece_infos_view(out_pieces@) == finished_pieces(views, i as nat),
            out_stickers@ == finished_stickers(views, i as nat),
        decreases n - i,
    {
        proof {
            lemma_finished_counts(views, i as nat);
            lemma_finished_counts(views, (i + 1) as nat);
            assert(Piece::max_index_spec() == 65535);
            assert(Sticker::max_index_spec() == 65535);
        }
        let piece = pieces.at_index(i);
        assert(piece@ == views[i as int]);
        if piece.is_active {
            let piece_id: Piece = match Piece::try_from_usize(out_pieces.len()) {
                Ok(id) => id,
                Err(_) => unreached(),
            };
            let first = out_stickers.len();
            let ghost stickers_before = out_stickers@;
            let mut ids = sticker_list_new();
            let mut k: usize = 0;
            while k < piece.stickers.len()
                invariant
                    k <= piece.stickers@.len(),
                    i < n,
                    n == pieces@.len(),
                    views == pieces_view(pieces@),
                    piece@ == views[i as int],
                    out_stickers.wf(),
                    out_stickers@.len() == first + k,
                    first == stickers_before.len(),
                    piece_id == Piece(active_count(views, i as nat) as u16),
                    out_stickers@ =~= stickers_before + finished_stickers_of(
                        piece@,
                        active_count(views, i as nat),
                    ).take(k as int),
                    sticker_list(ids) =~= finished_piece(piece@, first as nat).stickers.take(
                        k as int,
                    ),
                    sticker_total(views, i as nat) == first,
                    sticker_total(views, (i + 1) as nat) == first + piece.stickers@.len(),
                    sticker_total(views, (i + 1) as nat) <= sticker_total(views, views.len()),
                    views.len() == pieces@.len(),
                decreases piece.stickers@.len() - k,
            {
                let info = StickerInfo { piece: piece_id, color: piece.stickers[k].color };
                match out_stickers.push(info) {
                    Ok(id) => {
                        proof {
                            Sticker::index_is_injective(id, Sticker((first + k) as u16));
                        }
                        sticker_list_push(&mut ids, id);
                    },
                    Err(e) => {
                        assert(Sticker::max_index_spec() == 65535);
                        return Err(e);
                    },
                }
                k += 1;
            }
            proof {
                assert(finished_stickers_of(piece@, active_count(views, i as nat)).take(k as int)
                    =~= finished_stickers_of(piece@, active_count(views, i as nat)));
                assert(finished_piece(piece@, first as nat).stickers.take(k as int)
                    =~= finished_piece(piece@, first as nat).stickers);
            }
            let info = PieceInfo {
                stickers: ids,
                piece_type: piece.piece_type,
                polytope: piece.polytope,
            };
            let ghost pieces_before = out_pieces@;
            let pushed = out_pieces.push(info);
            assert(pushed is Ok);
            assert(piece_infos_view(out_pieces@) =~= piece_infos_view(pieces_before).push(info@));
            assert(info@ == finished_piece(piece@, first as nat));
        }
        i += 1;
    }
    proof {
        lemma_finished_counts(views, n as nat);
    }
    Ok((out_pieces, out_stickers))
}

/// The finished pieces have the types, and the finished stickers the
/// colors, of the pieces and stickers that they come from.
pub proof fn lemma_finished_pieces_are_valid(
    pieces: Seq<PieceView>,
    n: nat,
    color_count: nat,
    type_count: nat,
)
    requires
        n <= pieces.len(),
        pieces_are_valid(pieces, color_count, type_count),
    ensures
        forall|p: int|
            0 <= p < finished_pieces(pieces, n).len() ==> (#[trigger] finished_pieces(
                pieces,
                n,
            )[p]).piece_type.index_spec() < type_count,
        forall|s: int|
            0 <= s < finished_stickers(pieces, n).len() ==> is_sticker_color(
                (#[trigger] finished_stickers(pieces, n)[s]).color,
                color_count,
            ),
    decreases n,
{
    if n > 0 {
        let m = (n - 1) as nat;
        lemma_finished_pieces_are_valid(pieces, m, color_count, type_count);
        let before_pieces = finished_pieces(pieces, m);
        let before_stickers = finished_stickers(pieces, m);
        let after_pieces = finished_pieces(pieces, n);
        let after_stickers = finished_stickers(pieces, n);
        if pieces[n - 1].is_active {
            assert forall|p: int| 0 <= p < after_pieces.len() implies (
            #[trigger] after_pieces[p]).piece_type.index_spec() < type_count by {
                if p < before_pieces.len() {
                    assert(after_pieces[p] == before_pieces[p]);
                }
            }
            assert forall|s: int| 0 <= s < after_stickers.len() implies is_sticker_color(
                (#[trigger] after_stickers[s]).color,
                color_count,
            ) by {
                if s < before_stickers.len() {
                    assert(after_stickers[s] == before_stickers[s]);
                } else {
                    let k = s - before_stickers.len();
                    assert(after_stickers[s].color == pieces[n - 1].stickers[k].color);
                }
            }
        }
    }
}

/// A cut that is not at fault leaves valid pieces valid.
pub proof fn lemma_cut_keeps_pieces_valid(
    pieces: Seq<PieceView>,
    piece: Piece,
    cut: ManifoldRef,
    inside: Option<RegionView>,
    outside: Option<RegionView>,
    inside_color: Color,
    outside_color: Color,
    color_count: nat,
    type_count: nat,
)
    requires
        pieces_are_valid(pieces, color_count, type_count),
        cut_fault(pieces, color_count, piece, inside, outside, inside_color, outside_color) is None,
    ensures
        pieces_are_valid(
            pieces_after_cut(
                pieces,
                piece.index_spec() as int,
                cut,
                inside,
                outside,
                inside_color,
                outside_color,
            ),
            color_count,
            type_count,
        ),
{
    let p = piece.index_spec() as int;
    let after = pieces_after_cut(pieces, p, cut, inside, outside, inside_color, outside_color);
    let old_piece = pieces[p];
    assert(old_piece.piece_type.index_spec() < type_count);
    if inside is Some {
        lemma_part_is_valid(old_piece, inside->0, cut, inside_color, color_count);
    }
    if outside is Some {
        lemma_part_is_valid(old_piece, outside->0, cut, outside_color, color_count);
    }
    assert forall|q: int| 0 <= q < after.len() implies {
        &&& (#[trigger] after[q]).piece_type.index_spec() < type_count
        &&& forall|k: int|
            0 <= k < after[q].stickers.len() ==> is_sticker_color(
                (#[trigger] after[q].stickers[k]).color,
                color_count,
            )
    } by {
        if q < pieces.len() && q != p {
            assert(after[q] == pieces[q]);
        } else if q == p {
            assert(forall|k: int|
                0 <= k < old_piece.stickers.len() ==> is_sticker_color(
                    (#[trigger] old_piece.stickers[k]).color,
                    color_count,
                ));
        }
    }
}

} // verus!
