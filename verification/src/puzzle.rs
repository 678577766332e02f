//! The puzzle as a whole, while it is being described: the base shape, the
//! colors, the axes, the twists, the piece types and the pieces.
//!
//! Finishing the puzzle finishes its parts one after the other and puts them
//! together. Either there is a complete and consistent puzzle at the end, or
//! there is none: no part of a puzzle is ever handed out.

use crate::axis_system::{is_layer_stack, AxisBuilder, AxisError, AxisSystemBuilder};
use crate::collections::{PerPiece, PerPieceType};
use crate::color_system::ColorSystemBuilder;
use crate::ids::{
    Color,
    IndexNewtype,
    IndexOutOfRange,
    IndexOverflow,
    Piece,
    PieceType,
    Sticker,
    Twist,
};
use crate::info::{
    piece_infos_view,
    AtomicPolytopeRef,
    AxisInfo,
    ManifoldRef,
    PieceTypeInfo,
    TwistInfo,
};
use crate::naming::{
    resolve_names,
    resolved_name,
    runs_out_at,
    strings_view,
    unnamed_count,
    unused_names,
    warning_names,
    DuplicateName,
    NamingScheme,
    RanOutOfNames,
};
use crate::ordering::CustomOrdering;
use crate::pieces::{
    active_count,
    cut_fault,
    cut_piece_in,
    finish_pieces,
    finished_pieces,
    finished_stickers,
    is_sticker_color,
    lemma_cut_keeps_pieces_valid,
    lemma_finished_pieces_are_valid,
    lemma_finished_pieces_fit_stickers,
    opt_region_view,
    outcome_of_cut,
    pieces_after_cut,
    pieces_are_valid,
    pieces_view,
    retired,
    sticker_total,
    CutOutcome,
    PieceBuilder,
    PieceCut,
    PieceError,
    PieceView,
};
use crate::puzzle_type::{twists_fit_axes, PuzzleType};
use crate::shape::ShapeBuilder;
use crate::twist_system::{
    closed_under_reverse,
    is_faultless,
    is_finished_twist,
    is_twist_system,
    layer_counts,
    lemma_built_twists_fit_axes,
    TwistBuilder,
    TwistError,
    TwistSystemBuilder,
};
use vstd::prelude::*;

verus! {

/// Finished twists without a fault, on finished axes, fit the axes.
pub proof fn lemma_twists_fit_axes(
    closed: Seq<TwistBuilder>,
    twists: Seq<TwistInfo>,
    axes: Seq<AxisInfo>,
)
    requires
        is_faultless(closed, layer_counts(axes)),
        twists.len() == closed.len(),
        forall|j: int| 0 <= j < closed.len() ==> is_finished_twist(#[trigger] twists[j], closed, j),
        is_twist_system(twists),
        forall|a: int| 0 <= a < axes.len() ==> is_layer_stack((#[trigger] axes[a]).layers@),
    ensures
        twists_fit_axes(twists, axes),
{
    assert forall|i: int| 0 <= i < twists.len() implies (#[trigger] twists[i]).axis.index_spec()
        < axes.len() by {
        lemma_built_twists_fit_axes(closed, layer_counts(axes), twists, i);
    }
    assert forall|i: int| 0 <= i < twists.len() implies ((#[trigger] twists[i]).opposite matches Some(
        o,
    ) ==> axes[twists[o.index_spec() as int].axis.index_spec() as int].layers@.len()
        == axes[twists[i].axis.index_spec() as int].layers@.len()) by {
        lemma_built_twists_fit_axes(closed, layer_counts(axes), twists, i);
        if twists[i].opposite is Some {
            let o = twists[i].opposite->0.index_spec() as int;
            lemma_built_twists_fit_axes(closed, layer_counts(axes), twists, o);
        }
    }
}

/// The piece types with the names that were resolved for them.
fn named_piece_types(table: &Vec<(String, String)>) -> (r: PerPieceType<PieceTypeInfo>)
    requires
        table@.len() <= PieceType::max_index_spec() + 1,
    ensures
        r.wf(),
        r@.len() == table@.len(),
        forall|t: int| 0 <= t < r@.len() ==> (#[trigger] r@[t]).name@ == table@[t].0@,
{
    let mut types: PerPieceType<PieceTypeInfo> = PerPieceType::new();
    let mut t: usize = 0;
    while t < table.len()
        invariant
            table@.len() <= PieceType::max_index_spec() + 1,
            t <= table@.len(),
            types.wf(),
            types@.len() == t,
            forall|b: int| 0 <= b < t ==> (#[trigger] types@[b]).name@ == table@[b].0@,
        decreases table@.len() - t,
    {
        let ghost before = types@;
        let pushed = types.push(PieceTypeInfo { name: table[t].0.clone() });
        assert(pushed is Ok);
        assert(forall|b: int| 0 <= b < t ==> types@[b] == before[b]);
        t += 1;
    }
    types
}

/// Candidate names for the elements that the user left without a name,
/// for each kind of element.
pub struct AutoNames {
    /// Candidates for colors.
    pub colors: Vec<String>,
    /// Candidates for facets.
    pub facets: Vec<String>,
    /// Candidates for axes.
    pub axes: Vec<String>,
    /// Candidates for twists.
    pub twists: Vec<String>,
    /// Candidates for piece types.
    pub piece_types: Vec<String>,
}

/// Why a puzzle cannot be finished.
#[derive(Debug, Clone, Copy, PartialEq, Eq, Structural)]
pub enum PuzzleError {
    /// There are fewer unused candidate names than colors without a name.
    Colors(RanOutOfNames),
    /// There are fewer unused candidate names than facets without a name.
    Facets(RanOutOfNames),
    /// The axes cannot be finished.
    Axes(AxisError),
    /// The twists cannot be finished.
    Twists(TwistError),
    /// There are fewer unused candidate names than piece types without a
    /// name.
    PieceTypes(RanOutOfNames),
    /// There are more stickers than sticker IDs.
    TooManyStickers(IndexOverflow),
}

/// What finishing a puzzle gives: the warnings of all parts that were
/// finished, and the puzzle or the reason why there is none. There is
/// never a part of a puzzle.
pub struct PuzzleBuild {
    /// Warnings about names that are assigned twice: those of the colors,
    /// the facets, the axes, the twists and the piece types, in this order
    /// and as far as the build came.
    pub warnings: Vec<DuplicateName>,
    /// The finished puzzle, or the reason why there is none.
    pub puzzle: Result<PuzzleType, PuzzleError>,
}

/// The puzzle that is being described.
pub struct PuzzleBuilder {
    /// Human-friendly name of the puzzle.
    pub name: String,
    /// Base shape.
    pub shape: ShapeBuilder,
    /// Colors.
    pub colors: ColorSystemBuilder,
    /// Twist axes.
    pub axes: AxisSystemBuilder,
    /// Twists.
    pub twists: TwistSystemBuilder,
    /// Pieces, by the ID that they have while the puzzle is described.
    pub pieces: PerPiece<PieceBuilder>,
    /// Names that the user gave to piece types.
    pub piece_type_names: NamingScheme<PieceType>,
    /// The piece types, in the order in which the user wants them listed.
    pub piece_types: CustomOrdering<PieceType>,
    /// Number of moves for a full scramble.
    pub scramble_moves_count: usize,
}

/// How far a build came when it failed with `e`: the number of parts whose
/// names were resolved.
pub open spec fn stage_of(e: PuzzleError) -> nat {
    match e {
        PuzzleError::Colors(_) => 1,
        PuzzleError::Facets(_) => 2,
        PuzzleError::Axes(_) => 3,
        PuzzleError::Twists(_) => 4,
        PuzzleError::PieceTypes(_) => 5,
        PuzzleError::TooManyStickers(_) => 5,
    }
}

impl PuzzleBuilder {
    /// All parts are well-formed, and the pieces fit the colors and the
    /// piece types.
    pub open spec fn wf(&self) -> bool {
        &&& self.shape.wf()
        &&& self.colors.wf()
        &&& self.axes.wf()
        &&& self.twists.wf()
        &&& self.pieces.wf()
        &&& self.piece_types.wf()
        &&& pieces_are_valid(
            pieces_view(self.pieces@),
            self.colors.colors@.len(),
            self.piece_types@.len(),
        )
    }

    /// The names that are assigned twice, of the first `stage` parts: the
    /// colors, the facets, the axes, the twists and the piece types.
    pub open spec fn warnings_through(&self, stage: nat) -> Seq<Seq<char>> {
        self.colors.names.duplicate_names() + (if stage >= 2 {
            self.shape.names.duplicate_names()
        } else {
            Seq::empty()
        }) + (if stage >= 3 {
            self.axes.names.duplicate_names()
        } else {
            Seq::empty()
        }) + (if stage >= 4 {
            self.twists.names.duplicate_names()
        } else {
            Seq::empty()
        }) + (if stage >= 5 {
            self.piece_type_names.duplicate_names()
        } else {
            Seq::empty()
        })
    }

    /// Whether the unused candidates suffice to name the piece types that
    /// have no name.
    pub open spec fn piece_type_names_suffice(&self, autonames: Seq<String>) -> bool {
        unnamed_count(self.piece_type_names.names(), self.piece_types.ids()) <= unused_names(
            self.piece_type_names.names(),
            strings_view(autonames),
        ).len()
    }

    /// The number of layers of each axis, by ID.
    pub open spec fn axis_layer_counts(&self) -> Seq<nat> {
        self.axes.axes@.map_values(|axis: AxisBuilder| axis.layers@.len())
    }

    /// Puzzle without anything.
    pub fn new(id: String, name: String, ndim: u8) -> (r: Self)
        ensures
            r.wf(),
            r.name@ == name@,
            r.shape.ndim == ndim,
            r.colors.id == id,
            r.colors.name@ == name@,
            r.shape.names.names().len() == 0 && r.shape.names.display_names().len() == 0,
            r.colors.names.names().len() == 0 && r.colors.names.display_names().len() == 0,
            r.axes.names.names().len() == 0 && r.axes.names.display_names().len() == 0,
            r.twists.names.names().len() == 0 && r.twists.names.display_names().len() == 0,
            r.piece_type_names.names().len() == 0 && r.piece_type_names.display_names().len() == 0,
            r.shape.facets@.len() == 0,
            r.colors.colors@.len() == 0,
            r.axes.axes@.len() == 0,
            r.twists.twists@.len() == 0,
            r.pieces@.len() == 0,
            r.piece_types@.len() == 0,
            r.scramble_moves_count == 0,
    {
        let color_system_name = name.clone();
        PuzzleBuilder {
            name,
            shape: ShapeBuilder::new(ndim),
            colors: ColorSystemBuilder::new(id, color_system_name),
            axes: AxisSystemBuilder::new(),
            twists: TwistSystemBuilder::new(),
            pieces: PerPiece::new(),
            piece_type_names: NamingScheme::new(),
            piece_types: CustomOrdering::new(),
            scramble_moves_count: 0,
        }
    }

    /// Adds a piece type, last in the order, and returns its ID. Fails, and
    /// changes nothing, when no ID is left.
    pub fn add_piece_type(&mut self) -> (r: Result<PieceType, IndexOverflow>)
        requires
            old(self).wf(),
        ensures
            final(self).wf(),
            final(self).pieces == old(self).pieces,
            final(self).piece_type_names == old(self).piece_type_names,
            r is Ok <==> old(self).piece_types@.len() <= PieceType::max_index_spec(),
            r matches Ok(piece_type) ==> piece_type.index_spec() == old(self).piece_types@.len()
                && final(self).piece_types@ == old(self).piece_types@.push(
                piece_type.index_spec() as usize,
            ),
            r matches Err(e) ==> e.max_index == PieceType::max_index_spec() && final(self).piece_types@ == old(self).piece_types@,
    {
        let index = self.piece_types.len();
        match PieceType::try_from_usize(index) {
            Ok(piece_type) => {
                let placed = self.piece_types.add(piece_type);
                assert(placed is Ok);
                Ok(piece_type)
            },
            Err(e) => Err(e),
        }
    }

    /// Adds a piece without stickers that is part of the puzzle, and
    /// returns its ID. Fails, and changes nothing, when the piece type does
    /// not exist or no ID is left.
    pub fn add_piece(&mut self, polytope: AtomicPolytopeRef, piece_type: PieceType) -> (r: Result<
        Piece,
        PieceError,
    >)
        requires
            old(self).wf(),
        ensures
            final(self).wf(),
            r is Ok <==> piece_type.index_spec() < old(self).piece_types@.len() && old(self).pieces@.len() <= Piece::max_index_spec(),
            r matches Ok(piece) ==> piece.index_spec() == old(self).pieces@.len() && pieces_view(
                final(self).pieces@,
            ) == pieces_view(old(self).pieces@).push(
                PieceView { polytope, stickers: Seq::empty(), piece_type, is_active: true },
            ),
            r matches Err(e) ==> final(self).pieces@ == old(self).pieces@ && e == (
            if piece_type.index_spec() < old(self).piece_types@.len() {
                PieceError::TooManyPieces(IndexOverflow { max_index: 65535 })
            } else {
                PieceError::NoSuchPieceType { piece_type }
            }),
    {
        assert(Piece::max_index_spec() == 65535);
        if piece_type.to_usize() >= self.piece_types.len() {
            return Err(PieceError::NoSuchPieceType { piece_type });
        }
        let ghost before = pieces_view(self.pieces@);
        let piece = PieceBuilder { polytope, stickers: Vec::new(), piece_type, is_active: true };
        match self.pieces.push(piece) {
            Ok(id) => {
                proof {
                    let after = pieces_view(self.pieces@);
                    assert(after =~= before.push(
                        PieceView { polytope, stickers: Seq::empty(), piece_type, is_active: true },
                    ));
                    assert forall|p: int| 0 <= p < after.len() implies {
                        &&& (#[trigger] after[p]).piece_type.index_spec() < self.piece_types@.len()
                        &&& forall|k: int|
                            0 <= k < after[p].stickers.len() ==> is_sticker_color(
                                (#[trigger] after[p].stickers[k]).color,
                                self.colors.colors@.len(),
                            )
                    } by {
                        if p < before.len() {
                            assert(after[p] == before[p]);
                        }
                    }
                }
                Ok(id)
            },
            Err(_) => Err(PieceError::TooManyPieces(IndexOverflow { max_index: 65535 })),
        }
    }

    /// Cuts one piece, as the geometry engine found it cut.
    ///
    /// `result` holds the parts of the piece inside and outside the cut,
    /// `cut` the surface of the cut, and the two colors what the new face
    /// gets on either side: a color of the puzzle, or the internal color. A
    /// piece that lies on one side keeps its ID; a piece that is divided is
    /// no longer part of the puzzle, and its two parts are new pieces. Each
    /// part has a sticker on every surface of its region: in the color that
    /// the piece had there, in the color of the cut on the new face, and
    /// internal elsewhere. The parts are the pieces whose centroids have to
    /// be computed anew. Fails, and changes nothing, when the piece does not
    /// exist or is no longer part of the puzzle, when a color is no color of
    /// the puzzle, or when no IDs are left for the parts.
    pub fn cut_piece(
        &mut self,
        piece: Piece,
        cut: ManifoldRef,
        result: &PieceCut,
        inside_color: Color,
        outside_color: Color,
    ) -> (r: Result<CutOutcome, PieceError>)
        requires
            old(self).wf(),
        ensures
            final(self).wf(),
            final(self).piece_types == old(self).piece_types,
            r is Ok <==> cut_fault(
                pieces_view(old(self).pieces@),
                old(self).colors.colors@.len(),
                piece,
                opt_region_view(result.inside),
                opt_region_view(result.outside),
                inside_color,
                outside_color,
            ) is None,
            r matches Err(e) ==> final(self).pieces@ == old(self).pieces@ && Some(e) == cut_fault(
                pieces_view(old(self).pieces@),
                old(self).colors.colors@.len(),
                piece,
                opt_region_view(result.inside),
                opt_region_view(result.outside),
                inside_color,
                outside_color,
            ),
            r matches Ok(outcome) ==> {
                &&& pieces_view(final(self).pieces@) == pieces_after_cut(
                    pieces_view(old(self).pieces@),
                    piece.index_spec() as int,
                    cut,
                    opt_region_view(result.inside),
                    opt_region_view(result.outside),
                    inside_color,
                    outside_color,
                )
                &&& outcome == outcome_of_cut(
                    old(self).pieces@.len(),
                    piece,
                    opt_region_view(result.inside),
                    opt_region_view(result.outside),
                )
            },
    {
        let color_count = self.colors.len();
        let r = cut_piece_in(
            &mut self.pieces,
            color_count,
            piece,
            cut,
            result,
            inside_color,
            outside_color,
        );
        proof {
            if r is Ok {
                lemma_cut_keeps_pieces_valid(
                    pieces_view(old(self).pieces@),
                    piece,
                    cut,
                    opt_region_view(result.inside),
                    opt_region_view(result.outside),
                    inside_color,
                    outside_color,
                    color_count as nat,
                    self.piece_types@.len(),
                );
            }
        }
        r
    }

    /// Takes a piece out of the puzzle: the piece stays in the list and is
    /// no longer part of the puzzle. Fails, and changes nothing, when the
    /// piece does not exist or is already out.
    pub fn remove_piece(&mut self, piece: Piece) -> (r: Result<(), PieceError>)
        requires
            old(self).wf(),
        ensures
            final(self).wf(),
            final(self).piece_types == old(self).piece_types,
            r is Ok <==> old(self).pieces.has(piece) && old(self).pieces.value(piece).is_active,
            r is Ok ==> pieces_view(final(self).pieces@) == pieces_view(old(self).pieces@).update(
                piece.index_spec() as int,
                retired(old(self).pieces.value(piece)@),
            ),
            r matches Err(e) ==> final(self).pieces@ == old(self).pieces@ && e == (if old(self).pieces.has(piece) {
                PieceError::InactivePiece { piece }
            } else {
                PieceError::NoSuchPiece(
                    IndexOutOfRange {
                        index: piece.index_spec() as usize,
                        len: old(self).pieces@.len() as usize,
                    },
                )
            }),
    {
        let internal = Color::internal();
        let nothing = PieceCut { inside: None, outside: None };
        match self.cut_piece(piece, ManifoldRef(0), &nothing, internal, internal) {
            Ok(_) => Ok(()),
            Err(e) => Err(e),
        }
    }

    /// The pieces that are part of the puzzle, in the order of their IDs.
    pub fn active_pieces(&self) -> (r: Vec<Piece>)
        requires
            self.wf(),
        ensures
            r@.len() == active_count(pieces_view(self.pieces@), self.pieces@.len()),
            forall|k: int|
                0 <= k < r@.len() ==> self.pieces.has(#[trigger] r@[k]) && self.pieces.value(
                    r@[k],
                ).is_active,
            forall|k: int, l: int|
                0 <= k < l < r@.len() ==> r@[k].index_spec() < r@[l].index_spec(),
    {
        let ghost views = pieces_view(self.pieces@);
        let n = self.pieces.len();
        let mut out: Vec<Piece> = Vec::new();
        let mut i: usize = 0;
        assert(Piece::max_index_spec() == 65535);
        while i < n
            invariant
                self.pieces.wf(),
                n == self.pieces@.len(),
                views == pieces_view(self.pieces@),
                i <= n,
                out@.len() == active_count(views, i as nat),
                forall|k: int|
                    0 <= k < out@.len() ==> (#[trigger] out@[k]).index_spec() < i
                        && self.pieces@[out@[k].index_spec() as int].is_active,
                forall|k: int, l: int|
                    0 <= k < l < out@.len() ==> out@[k].index_spec() < out@[l].index_spec(),
            decreases n - i,
        {
            assert(views[i as int] == self.pieces@[i as int]@);
            if self.pieces.at_index(i).is_active {
                assert(Piece::max_index_spec() == 65535);
                let id: Piece = match Piece::try_from_usize(i) {
                    Ok(id) => id,
                    Err(_) => unreached(),
                };
                out.push(id);
            }
            i += 1;
        }
        out
    }

    /// Whether the puzzle can be finished, where `after` is the builder
    /// with the missing reverse twists added: the candidates suffice to name
    /// the elements of every kind, every axis has a proper stack of layers,
    /// the twist IDs suffice and the relations of the twists are in order,
    /// and the sticker IDs suffice.
    pub open spec fn can_finish(&self, after: PuzzleBuilder, autonames: AutoNames) -> bool {
        let closed = closed_under_reverse(self.twists.twists@, self.twists.twists@.len());
        &&& self.colors.names_suffice(autonames.colors@)
        &&& self.shape.names_suffice(autonames.facets@)
        &&& self.axes.names_suffice(autonames.axes@)
        &&& self.axes.stacks_hold_before(self.axes.axes@.len() as int)
        &&& closed.len() <= Twist::max_index_spec() + 1
        &&& after.twists.names_suffice(autonames.twists@)
        &&& is_faultless(closed, self.axis_layer_counts())
        &&& self.piece_type_names_suffice(autonames.piece_types@)
        &&& sticker_total(pieces_view(self.pieces@), self.pieces@.len())
            <= Sticker::max_index_spec() + 1
    }

    /// Whether `puzzle` is the finished puzzle of this builder, where
    /// `after` is the builder with the missing reverse twists added.
    pub open spec fn is_built(
        &self,
        after: PuzzleBuilder,
        autonames: AutoNames,
        puzzle: PuzzleType,
    ) -> bool {
        &&& puzzle.name@ == self.name@
        &&& puzzle.ndim == self.shape.ndim
        &&& puzzle.scramble_moves_count == self.scramble_moves_count
        &&& self.colors.is_built(autonames.colors@, puzzle.colors)
        &&& self.shape.is_built(autonames.facets@, puzzle.facets@)
        &&& self.axes.is_built(autonames.axes@, puzzle.axes@)
        &&& after.twists.twists@ == closed_under_reverse(
            self.twists.twists@,
            self.twists.twists@.len(),
        )
        &&& after.twists.is_built(autonames.twists@, puzzle.twists@)
        &&& puzzle.piece_types@.len() == self.piece_types@.len()
        &&& forall|p: int|
            0 <= p < self.piece_types@.len() ==> (
            #[trigger] puzzle.piece_types@[self.piece_types@[p] as int]).name@ == resolved_name(
                self.piece_type_names.names(),
                self.piece_types.ids(),
                strings_view(autonames.piece_types@),
                p,
            )
        &&& piece_infos_view(puzzle.pieces@) == finished_pieces(
            pieces_view(self.pieces@),
            self.pieces@.len(),
        )
        &&& puzzle.stickers@ == finished_stickers(pieces_view(self.pieces@), self.pieces@.len())
    }

    /// Whether `e` is the reason why the puzzle cannot be finished, where
    /// `after` is the builder with the missing reverse twists added: `e` is
    /// the failure of the first part that fails, in the order colors,
    /// facets, axes, twists, piece types, pieces.
    pub open spec fn build_fails_with(
        &self,
        after: PuzzleBuilder,
        autonames: AutoNames,
        e: PuzzleError,
    ) -> bool {
        let closed = closed_under_reverse(self.twists.twists@, self.twists.twists@.len());
        &&& stage_of(e) >= 2 ==> self.colors.names_suffice(autonames.colors@)
        &&& stage_of(e) >= 3 ==> self.shape.names_suffice(autonames.facets@)
        &&& stage_of(e) >= 4 ==> self.axes.names_suffice(autonames.axes@)
            && self.axes.stacks_hold_before(self.axes.axes@.len() as int)
        &&& stage_of(e) >= 5 ==> closed.len() <= Twist::max_index_spec() + 1
            && after.twists.names_suffice(autonames.twists@) && is_faultless(
            closed,
            self.axis_layer_counts(),
        )
        &&& match e {
            PuzzleError::Colors(reason) => !self.colors.names_suffice(autonames.colors@)
                && runs_out_at(
                self.colors.names.names(),
                self.colors.ordering.ids(),
                strings_view(autonames.colors@),
                reason.position as nat,
            ),
            PuzzleError::Facets(reason) => !self.shape.names_suffice(autonames.facets@)
                && runs_out_at(
                self.shape.names.names(),
                self.shape.ordering.ids(),
                strings_view(autonames.facets@),
                reason.position as nat,
            ),
            PuzzleError::Axes(reason) => self.axes.build_fails_with(autonames.axes@, reason),
            PuzzleError::Twists(reason) => after.twists.build_fails_with(
                closed,
                self.axis_layer_counts(),
                autonames.twists@,
                reason,
            ),
            PuzzleError::PieceTypes(reason) => !self.piece_type_names_suffice(
                autonames.piece_types@,
            ) && runs_out_at(
                self.piece_type_names.names(),
                self.piece_types.ids(),
                strings_view(autonames.piece_types@),
                reason.position as nat,
            ),
            PuzzleError::TooManyStickers(_) => {
                &&& self.piece_type_names_suffice(autonames.piece_types@)
                &&& sticker_total(pieces_view(self.pieces@), self.pieces@.len())
                    > Sticker::max_index_spec() + 1
            },
        }
    }

    /// Finishes the puzzle: finishes the colors, the facets, the axes, the
    /// twists, the piece types and the pieces, in this order, and puts the
    /// finished parts together.
    ///
    /// Names that the user assigned twice are reported and kept. The first
    /// part that cannot be finished ends the build with its reason; there
    /// is then no puzzle, and the warnings are those of the parts up to that
    /// one. On success the puzzle is complete and consistent. The builder
    /// keeps the reverse twists that were added.
    pub fn build(&mut self, autonames: &AutoNames) -> (r: PuzzleBuild)
        requires
            old(self).wf(),
        ensures
            final(self).name == old(self).name,
            final(self).pieces == old(self).pieces,
            final(self).colors == old(self).colors,
            final(self).axes == old(self).axes,
            final(self).shape == old(self).shape,
            final(self).piece_types == old(self).piece_types,
            final(self).piece_type_names == old(self).piece_type_names,
            final(self).twists.names == old(self).twists.names,
            final(self).scramble_moves_count == old(self).scramble_moves_count,
            match r.puzzle {
                Err(PuzzleError::Colors(_)) | Err(PuzzleError::Facets(_)) | Err(
                    PuzzleError::Axes(_),
                ) => final(self).twists == old(self).twists,
                Err(PuzzleError::Twists(TwistError::TooManyTwists(_))) => exists|k: nat|
                    k < old(self).twists.twists@.len() && final(self).twists.twists@
                        == #[trigger] closed_under_reverse(old(self).twists.twists@, k)
                        && closed_under_reverse(old(self).twists.twists@, k + 1).len()
                        > Twist::max_index_spec() + 1,
                _ => final(self).twists.twists@ == closed_under_reverse(
                    old(self).twists.twists@,
                    old(self).twists.twists@.len(),
                ),
            },
            warning_names(r.warnings@) == old(self).warnings_through(
                match r.puzzle {
                    Ok(_) => 5,
                    Err(e) => stage_of(e),
                },
            ),
            r.puzzle is Ok <==> old(self).can_finish(*final(self), *autonames),
            r.puzzle matches Ok(puzzle) ==> puzzle.wf() && old(self).is_built(
                *final(self),
                *autonames,
                puzzle,
            ),
            r.puzzle matches Err(e) ==> old(self).build_fails_with(*final(self), *autonames, e),
    {
        let colors = self.colors.build(&autonames.colors);
        let mut warnings = colors.warnings;
        let colors = match colors.colors {
            Ok(colors) => colors,
            Err(e) => {
                return PuzzleBuild { warnings, puzzle: Err(PuzzleError::Colors(e)) };
            },
        };
        let facets = self.shape.build(&autonames.facets);
        let mut more = facets.warnings;
        let ghost first = warnings@;
        let ghost second = more@;
        warnings.append(&mut more);
        assert(warning_names(warnings@) =~= warning_names(first) + warning_names(second));
        let facets = match facets.facets {
            Ok(facets) => facets,
            Err(e) => {
                return PuzzleBuild { warnings, puzzle: Err(PuzzleError::Facets(e)) };
            },
        };
        let axes = self.axes.build(&autonames.axes);
        let mut more = axes.warnings;
        let ghost first = warnings@;
        let ghost second = more@;
        warnings.append(&mut more);
        assert(warning_names(warnings@) =~= warning_names(first) + warning_names(second));
        let axes = match axes.axes {
            Ok(axes) => axes,
            Err(e) => {
                return PuzzleBuild { warnings, puzzle: Err(PuzzleError::Axes(e)) };
            },
        };
        proof {
            assert(layer_counts(axes@) =~= self.axis_layer_counts()) by {
                assert forall|a: int| 0 <= a < axes@.len() implies layer_counts(axes@)[a]
                    == self.axis_layer_counts()[a] by {
                    assert(axes@[a].layers@ == self.axes.axes@[a].layer_infos());
                }
            }
        }
        let twists = self.twists.build(&axes, &autonames.twists);
        let mut more = twists.warnings;
        let ghost first = warnings@;
        let ghost second = more@;
        warnings.append(&mut more);
        assert(warning_names(warnings@) =~= warning_names(first) + warning_names(second));
        let twists = match twists.twists {
            Ok(twists) => twists,
            Err(e) => {
                return PuzzleBuild { warnings, puzzle: Err(PuzzleError::Twists(e)) };
            },
        };
        let types = resolve_names(&self.piece_type_names, &self.piece_types, &autonames.piece_types);
        let mut more = types.warnings;
        let ghost first = warnings@;
        let ghost second = more@;
        warnings.append(&mut more);
        assert(warning_names(warnings@) =~= warning_names(first) + warning_names(second));
        let table = match types.names {
            Ok(table) => table,
            Err(e) => {
                return PuzzleBuild { warnings, puzzle: Err(PuzzleError::PieceTypes(e)) };
            },
        };
        let piece_types = named_piece_types(&table);
        let (pieces, stickers) = match finish_pieces(&self.pieces) {
            Ok(finished) => finished,
            Err(e) => {
                return PuzzleBuild { warnings, puzzle: Err(PuzzleError::TooManyStickers(e)) };
            },
        };
        let puzzle = PuzzleType {
            name: self.name.clone(),
            ndim: self.shape.ndim,
            facets,
            colors,
            axes,
            twists,
            pieces,
            stickers,
            piece_types,
            scramble_moves_count: self.scramble_moves_count,
        };
        proof {
            let views = pieces_view(self.pieces@);
            let closed = self.twists.twists@;
            assert(Piece::max_index_spec() == 65535);
            lemma_finished_pieces_fit_stickers(views, self.pieces@.len());
            lemma_finished_pieces_are_valid(
                views,
                self.pieces@.len(),
                self.colors.colors@.len(),
                self.piece_types@.len(),
            );
            lemma_twists_fit_axes(closed, puzzle.twists@, puzzle.axes@);
            assert forall|p: int| 0 <= p < puzzle.pieces@.len() implies (
            #[trigger] puzzle.pieces@[p]).piece_type.index_spec() < puzzle.piece_types@.len() by {
                assert(piece_infos_view(puzzle.pieces@)[p] == puzzle.pieces@[p]@);
            }
        }
        PuzzleBuild { warnings, puzzle: Ok(puzzle) }
    }
}

} // verus!
