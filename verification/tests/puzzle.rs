use hyperpuzzle::axis_system::AxisError;
use hyperpuzzle::collections::PerPiece;
use hyperpuzzle::ids::{Axis, Color, IndexOutOfRange, Piece, PieceType, Sticker, Twist};
use hyperpuzzle::info::{AtomicPolytopeRef, IsometryId, ManifoldRef, PieceInfo, StickerInfo};
use hyperpuzzle::pieces::{
    cut_piece_in, find_color_on, finish_pieces, inherit_stickers, CutOutcome, PieceBuilder,
    PieceCut, PieceError, RegionInfo, StickerBuilder,
};
use hyperpuzzle::puzzle::{AutoNames, PuzzleBuilder, PuzzleError};
use hyperpuzzle::twist_system::TwistBuilder;

fn candidates(prefix: &str, n: usize) -> Vec<String> {
    (0..n).map(|i| format!("{}{}", prefix, i)).collect()
}

fn autonames() -> AutoNames {
    AutoNames {
        colors: candidates("c", 8),
        facets: candidates("f", 8),
        axes: candidates("a", 8),
        twists: candidates("t", 8),
        piece_types: candidates("p", 8),
    }
}

fn region(polytope: u32, boundary: &[u32]) -> RegionInfo {
    RegionInfo {
        polytope: AtomicPolytopeRef(polytope),
        boundary: boundary.iter().map(|&m| ManifoldRef(m)).collect(),
    }
}

fn sticker(manifold: u32, color: Color) -> StickerBuilder {
    StickerBuilder {
        manifold: ManifoldRef(manifold),
        color,
    }
}

/// A builder with two colors, one piece type and one piece without
/// stickers.
fn builder() -> (PuzzleBuilder, Piece) {
    let mut builder = PuzzleBuilder::new("p".to_string(), "Puzzle".to_string(), 3);
    builder.colors.add().unwrap();
    builder.colors.add().unwrap();
    let piece_type = builder.add_piece_type().unwrap();
    let piece = builder.add_piece(AtomicPolytopeRef(100), piece_type).unwrap();
    (builder, piece)
}

#[test]
fn a_piece_on_one_side_keeps_its_id_and_gets_the_new_face() {
    let (mut builder, piece) = builder();
    let cut = PieceCut {
        inside: Some(region(101, &[1])),
        outside: None,
    };
    let outcome = builder
        .cut_piece(piece, ManifoldRef(1), &cut, Color(0), Color::internal())
        .unwrap();
    assert_eq!(
        outcome,
        CutOutcome {
            inside: Some(piece),
            outside: None
        }
    );
    let carved = builder.pieces.at(piece);
    assert_eq!(carved.polytope, AtomicPolytopeRef(101));
    assert_eq!(carved.stickers, vec![sticker(1, Color(0))]);
    assert!(carved.is_active);
    assert_eq!(builder.pieces.len(), 1);
}

#[test]
fn a_divided_piece_is_replaced_by_its_two_parts() {
    let (mut builder, piece) = builder();
    let carve = PieceCut {
        inside: Some(region(101, &[1])),
        outside: None,
    };
    builder
        .cut_piece(piece, ManifoldRef(1), &carve, Color(0), Color::internal())
        .unwrap();
    let slice = PieceCut {
        inside: Some(region(102, &[1, 2])),
        outside: Some(region(103, &[2, 1, 3])),
    };
    let outcome = builder
        .cut_piece(piece, ManifoldRef(2), &slice, Color(1), Color::internal())
        .unwrap();
    assert_eq!(
        outcome,
        CutOutcome {
            inside: Some(Piece(1)),
            outside: Some(Piece(2))
        }
    );
    assert!(!builder.pieces.at(piece).is_active);
    assert_eq!(builder.pieces.at(piece).polytope, AtomicPolytopeRef(101));
    let inside = builder.pieces.at(Piece(1));
    assert_eq!(inside.polytope, AtomicPolytopeRef(102));
    assert_eq!(
        inside.stickers,
        vec![sticker(1, Color(0)), sticker(2, Color(1))]
    );
    let outside = builder.pieces.at(Piece(2));
    assert_eq!(
        outside.stickers,
        vec![
            sticker(2, Color::internal()),
            sticker(1, Color(0)),
            sticker(3, Color::internal())
        ]
    );
    assert_eq!(outside.piece_type, PieceType(0));
    assert_eq!(builder.active_pieces(), vec![Piece(1), Piece(2)]);
}

#[test]
fn a_piece_of_which_nothing_is_left_is_retired() {
    let (mut builder, piece) = builder();
    let gone = PieceCut {
        inside: None,
        outside: None,
    };
    let outcome = builder
        .cut_piece(piece, ManifoldRef(1), &gone, Color(0), Color(1))
        .unwrap();
    assert_eq!(
        outcome,
        CutOutcome {
            inside: None,
            outside: None
        }
    );
    assert!(builder.active_pieces().is_empty());
    assert_eq!(
        builder.cut_piece(piece, ManifoldRef(1), &gone, Color(0), Color(1)),
        Err(PieceError::InactivePiece { piece })
    );
}

#[test]
fn a_piece_outside_the_cut_gets_the_outside_color() {
    let (mut builder, piece) = builder();
    let cut = PieceCut {
        inside: None,
        outside: Some(region(7, &[4])),
    };
    let outcome = builder
        .cut_piece(piece, ManifoldRef(4), &cut, Color(0), Color(1))
        .unwrap();
    assert_eq!(outcome.outside, Some(piece));
    assert_eq!(builder.pieces.at(piece).stickers, vec![sticker(4, Color(1))]);
}

#[test]
fn cuts_are_refused_for_what_does_not_exist() {
    let (mut builder, piece) = builder();
    let cut = PieceCut {
        inside: Some(region(1, &[1])),
        outside: None,
    };
    assert_eq!(
        builder.cut_piece(Piece(3), ManifoldRef(1), &cut, Color(0), Color(0)),
        Err(PieceError::NoSuchPiece(IndexOutOfRange { index: 3, len: 1 }))
    );
    assert_eq!(
        builder.cut_piece(piece, ManifoldRef(1), &cut, Color(2), Color(0)),
        Err(PieceError::NoSuchColor { color: Color(2) })
    );
    assert_eq!(
        builder.cut_piece(piece, ManifoldRef(1), &cut, Color(0), Color(9)),
        Err(PieceError::NoSuchColor { color: Color(9) })
    );
    assert_eq!(
        builder.add_piece(AtomicPolytopeRef(0), PieceType(1)),
        Err(PieceError::NoSuchPieceType {
            piece_type: PieceType(1)
        })
    );
    assert_eq!(builder.pieces.at(piece).stickers, vec![]);
}

#[test]
fn no_piece_is_divided_when_the_ids_do_not_suffice() {
    let mut pieces: PerPiece<PieceBuilder> = PerPiece::new();
    for _ in 0..65535u32 {
        pieces
            .push(PieceBuilder {
                polytope: AtomicPolytopeRef(0),
                stickers: vec![],
                piece_type: PieceType(0),
                is_active: true,
            })
            .unwrap();
    }
    let both = PieceCut {
        inside: Some(region(1, &[])),
        outside: Some(region(2, &[])),
    };
    assert_eq!(
        cut_piece_in(
            &mut pieces,
            0,
            Piece(0),
            ManifoldRef(0),
            &both,
            Color::internal(),
            Color::internal()
        )
        .err(),
        Some(PieceError::TooManyPieces(
            hyperpuzzle::ids::IndexOverflow { max_index: 65535 }
        ))
    );
    assert_eq!(pieces.len(), 65535);
    assert!(pieces.at(Piece(0)).is_active);
}

#[test]
fn a_removed_piece_stays_in_the_list() {
    let (mut builder, piece) = builder();
    assert_eq!(builder.remove_piece(piece), Ok(()));
    assert_eq!(builder.pieces.len(), 1);
    assert!(!builder.pieces.at(piece).is_active);
    assert_eq!(
        builder.remove_piece(piece),
        Err(PieceError::InactivePiece { piece })
    );
    assert_eq!(
        builder.remove_piece(Piece(1)),
        Err(PieceError::NoSuchPiece(IndexOutOfRange { index: 1, len: 1 }))
    );
}

#[test]
fn the_first_sticker_on_a_surface_decides_the_color() {
    let stickers = vec![
        sticker(1, Color(5)),
        sticker(2, Color(6)),
        sticker(1, Color(7)),
    ];
    assert_eq!(find_color_on(&stickers, ManifoldRef(1)), Some(Color(5)));
    assert_eq!(find_color_on(&stickers, ManifoldRef(2)), Some(Color(6)));
    assert_eq!(find_color_on(&stickers, ManifoldRef(3)), None);
    assert_eq!(
        inherit_stickers(
            &stickers,
            &vec![ManifoldRef(3), ManifoldRef(2), ManifoldRef(9)],
            ManifoldRef(9),
            Color(1)
        ),
        vec![
            sticker(3, Color::internal()),
            sticker(2, Color(6)),
            sticker(9, Color(1))
        ]
    );
}

#[test]
fn finished_pieces_and_stickers_have_dense_ids() {
    let (mut builder, piece) = builder();
    let carve = PieceCut {
        inside: Some(region(101, &[1, 2])),
        outside: None,
    };
    builder
        .cut_piece(piece, ManifoldRef(1), &carve, Color(0), Color::internal())
        .unwrap();
    let slice = PieceCut {
        inside: Some(region(102, &[1, 3])),
        outside: Some(region(103, &[3, 2, 1])),
    };
    builder
        .cut_piece(piece, ManifoldRef(3), &slice, Color(1), Color(1))
        .unwrap();
    let (pieces, stickers) = finish_pieces(&builder.pieces).unwrap();
    assert_eq!(pieces.len(), 2);
    assert_eq!(stickers.len(), 5);
    assert_eq!(pieces.at(Piece(0)).sticker_ids(), vec![Sticker(0), Sticker(1)]);
    assert_eq!(
        pieces.at(Piece(1)).sticker_ids(),
        vec![Sticker(2), Sticker(3), Sticker(4)]
    );
    let copy = pieces.at(Piece(1)).clone();
    assert_eq!(copy.sticker_ids(), vec![Sticker(2), Sticker(3), Sticker(4)]);
    assert_eq!(&copy, pieces.at(Piece(1)));
    assert_eq!(pieces.at(Piece(0)).polytope, AtomicPolytopeRef(102));
    assert_eq!(pieces.at(Piece(1)).polytope, AtomicPolytopeRef(103));
    let expected = [
        (0, Color(0)),
        (0, Color(1)),
        (1, Color(1)),
        (1, Color::internal()),
        (1, Color(0)),
    ];
    for (s, (piece, color)) in expected.iter().enumerate() {
        assert_eq!(
            *stickers.at(Sticker(s as u16)),
            StickerInfo {
                piece: Piece(*piece),
                color: *color
            }
        );
    }
}

#[test]
fn a_puzzle_is_built_from_all_its_parts() {
    let (mut builder, piece) = builder();
    builder.scramble_moves_count = 10;
    builder.shape.add_facet(ManifoldRef(1), None).unwrap();
    let axis = builder.axes.add().unwrap();
    builder
        .axes
        .push_layer(axis, ManifoldRef(0), Some(ManifoldRef(1)))
        .unwrap();
    builder.axes.push_layer(axis, ManifoldRef(1), None).unwrap();
    builder
        .twists
        .add(TwistBuilder {
            axis,
            transform: IsometryId(1),
            inverse_transform: IsometryId(2),
            qtm: 1,
            opposite: None,
        })
        .unwrap();
    let carve = PieceCut {
        inside: Some(region(101, &[1])),
        outside: None,
    };
    builder
        .cut_piece(piece, ManifoldRef(1), &carve, Color(0), Color::internal())
        .unwrap();
    builder
        .colors
        .names
        .set_name(Color(0), Some("Red".to_string()));
    builder
        .colors
        .names
        .set_name(Color(1), Some("Red".to_string()));
    builder.axes.names.set_name(axis, Some("U".to_string()));
    let build = builder.build(&autonames());
    let warnings: Vec<String> = build.warnings.into_iter().map(|w| w.name).collect();
    assert_eq!(warnings, vec!["Red".to_string()]);
    let puzzle = build.puzzle.unwrap();
    assert_eq!(puzzle.name, "Puzzle");
    assert_eq!(puzzle.ndim, 3);
    assert_eq!(puzzle.scramble_moves_count, 10);
    assert_eq!(puzzle.colors.list.len(), 2);
    assert_eq!(puzzle.colors.list.at(Color(0)).name, "Red");
    assert_eq!(puzzle.colors.list.at(Color(1)).name, "Red");
    assert_eq!(puzzle.facets.len(), 1);
    assert_eq!(puzzle.facets.at_index(0).name, "f0");
    assert_eq!(puzzle.axes.at(axis).name, "U");
    assert_eq!(puzzle.twists.len(), 2);
    assert_eq!(puzzle.twists.at(Twist(0)).reverse, Twist(1));
    assert_eq!(puzzle.twists.at(Twist(1)).reverse, Twist(0));
    assert_eq!(puzzle.twists.at(Twist(0)).name, "t0");
    assert_eq!(puzzle.piece_types.len(), 1);
    assert_eq!(puzzle.piece_types.at(PieceType(0)).name, "p0");
    assert_eq!(puzzle.pieces.len(), 1);
    assert_eq!(puzzle.stickers.len(), 1);
    assert_eq!(puzzle.stickers.at(Sticker(0)).color, Color(0));
    assert_eq!(builder.twists.len(), 2);
}

#[test]
fn a_puzzle_with_a_broken_axis_is_not_built_at_all() {
    let (mut builder, _) = builder();
    builder.colors.names.set_name(Color(0), Some("x".to_string()));
    builder.colors.names.set_name(Color(1), Some("x".to_string()));
    let axis = builder.axes.add().unwrap();
    let build = builder.build(&autonames());
    assert_eq!(
        build.puzzle.err(),
        Some(PuzzleError::Axes(AxisError::EmptyAxis { axis }))
    );
    assert_eq!(build.warnings.len(), 1);
}

#[test]
fn the_first_part_that_fails_ends_the_build() {
    let (mut builder, _) = builder();
    builder.axes.add().unwrap();
    let mut names = autonames();
    names.colors = vec!["only".to_string()];
    assert!(matches!(
        builder.build(&names).puzzle,
        Err(PuzzleError::Colors(_))
    ));
    let mut names = autonames();
    names.piece_types = vec![];
    builder
        .axes
        .push_layer(Axis(0), ManifoldRef(0), None)
        .unwrap();
    assert!(matches!(
        builder.build(&names).puzzle,
        Err(PuzzleError::PieceTypes(_))
    ));
    builder.twists.add(TwistBuilder {
        axis: Axis(4),
        transform: IsometryId(1),
        inverse_transform: IsometryId(1),
        qtm: 2,
        opposite: None,
    })
    .unwrap();
    assert!(matches!(
        builder.build(&autonames()).puzzle,
        Err(PuzzleError::Twists(_))
    ));
}

#[test]
fn facets_without_names_need_candidates() {
    let (mut builder, _) = builder();
    builder.shape.add_facet(ManifoldRef(1), None).unwrap();
    let mut names = autonames();
    names.facets = vec![];
    assert!(matches!(
        builder.build(&names).puzzle,
        Err(PuzzleError::Facets(_))
    ));
}

#[test]
fn more_stickers_than_sticker_ids_cannot_be_finished() {
    let (mut builder, piece) = builder();
    let boundary: Vec<u32> = (0..65537).collect();
    let cut = PieceCut {
        inside: Some(region(1, &boundary)),
        outside: None,
    };
    builder
        .cut_piece(piece, ManifoldRef(0), &cut, Color(0), Color(0))
        .unwrap();
    assert!(finish_pieces(&builder.pieces).is_err());
    assert!(matches!(
        builder.build(&autonames()).puzzle,
        Err(PuzzleError::TooManyStickers(_))
    ));
    builder.remove_piece(piece).unwrap();
    assert!(builder.build(&autonames()).puzzle.is_ok());
}

#[test]
fn a_piece_holds_its_stickers_in_order() {
    let many: Vec<Sticker> = (0..20).map(Sticker).collect();
    let piece = PieceInfo::new(&many, PieceType(2), AtomicPolytopeRef(7));
    assert_eq!(piece.sticker_ids(), many);
    assert_eq!(piece.piece_type, PieceType(2));
    assert_eq!(piece.polytope, AtomicPolytopeRef(7));
    let none = PieceInfo::new(&vec![], PieceType(0), AtomicPolytopeRef(0));
    assert!(none.sticker_ids().is_empty());
    assert_ne!(none, piece);
}
