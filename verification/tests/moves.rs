use hyperpuzzle::ids::{Axis, Twist};
use hyperpuzzle::info::{IsometryId, ManifoldRef};
use hyperpuzzle::layer_mask::{reverse_bits, LayerMask};
use hyperpuzzle::puzzle::{AutoNames, PuzzleBuilder};
use hyperpuzzle::puzzle_type::{LayeredTwist, PuzzleType};
use hyperpuzzle::twist_system::{TwistBuilder, TwistKey};

fn candidates(prefix: &str, n: usize) -> Vec<String> {
    (0..n).map(|i| format!("{}{}", prefix, i)).collect()
}

fn autonames() -> AutoNames {
    AutoNames {
        colors: candidates("c", 8),
        facets: candidates("f", 8),
        axes: candidates("a", 8),
        twists: candidates("t", 8),
        piece_types: candidates("p", 8),
    }
}

/// Two axes with three layers each; R on the one and L' on the other are
/// opposites, and so are R' and L.
fn puzzle() -> PuzzleType {
    let mut builder = PuzzleBuilder::new("p".to_string(), "Puzzle".to_string(), 3);
    for _ in 0..2 {
        let axis = builder.axes.add().unwrap();
        builder
            .axes
            .push_layer(axis, ManifoldRef(0), Some(ManifoldRef(1)))
            .unwrap();
        builder
            .axes
            .push_layer(axis, ManifoldRef(1), Some(ManifoldRef(2)))
            .unwrap();
        builder.axes.push_layer(axis, ManifoldRef(2), None).unwrap();
    }
    let key = |axis: u16, transform: u32| TwistKey {
        axis: Axis(axis),
        transform: IsometryId(transform),
    };
    let twist = |axis: u16, transform: u32, inverse: u32, opposite: Option<TwistKey>| TwistBuilder {
        axis: Axis(axis),
        transform: IsometryId(transform),
        inverse_transform: IsometryId(inverse),
        qtm: 1,
        opposite,
    };
    builder.twists.add(twist(0, 1, 2, Some(key(1, 2)))).unwrap();
    builder.twists.add(twist(0, 2, 1, Some(key(1, 1)))).unwrap();
    builder.twists.add(twist(1, 1, 2, Some(key(0, 2)))).unwrap();
    builder.twists.add(twist(1, 2, 1, Some(key(0, 1)))).unwrap();
    builder.twists.add(twist(0, 5, 5, None)).unwrap();
    builder.build(&autonames()).puzzle.unwrap()
}

fn layered(mask: u32, twist: u32) -> LayeredTwist {
    LayeredTwist {
        layers: LayerMask(mask),
        transform: Twist(twist),
    }
}

#[test]
fn bits_are_reversed() {
    assert_eq!(reverse_bits(1), 0x8000_0000);
    assert_eq!(reverse_bits(0x8000_0000), 1);
    assert_eq!(reverse_bits(0b1011), 0xd000_0000);
    assert_eq!(reverse_bits(0), 0);
    assert_eq!(reverse_bits(u32::MAX), u32::MAX);
    for x in [3u32, 0x1234_5678, 0xdead_beef] {
        assert_eq!(reverse_bits(x), x.reverse_bits());
    }
}

#[test]
fn a_layer_mask_is_reversed_within_the_layer_count() {
    assert_eq!(LayerMask(0b001).reversed(3), LayerMask(0b100));
    assert_eq!(LayerMask(0b011).reversed(3), LayerMask(0b110));
    assert_eq!(LayerMask(0b010).reversed(3), LayerMask(0b010));
    assert_eq!(LayerMask(0b1).reversed(1), LayerMask(0b1));
    assert_eq!(LayerMask(1).reversed(32), LayerMask(0x8000_0000));
    assert_eq!(LayerMask(0b0110).reversed(5), LayerMask(0b01100));
    assert_eq!(LayerMask(0b1100).reversed(3), LayerMask(0b001));
}

#[test]
fn reversing_a_mask_twice_gives_the_mask_back() {
    for count in 1..=32u8 {
        for mask in [0u32, 1, 0b101, 0x8000_0001, 0x00ff_00f0, u32::MAX] {
            let mask = if count == 32 {
                mask
            } else {
                mask & ((1u32 << count) - 1)
            };
            let mask = LayerMask(mask);
            assert!(mask.fits(count));
            assert_eq!(mask.reversed(count).reversed(count), mask);
            assert!(mask.reversed(count).fits(count));
        }
    }
}

#[test]
fn a_mask_fits_when_it_selects_only_layers_that_exist() {
    assert!(LayerMask(0b111).fits(3));
    assert!(!LayerMask(0b1000).fits(3));
    assert!(LayerMask(0).fits(0));
    assert!(!LayerMask(1).fits(0));
    assert!(LayerMask(u32::MAX).fits(32));
    assert!(LayerMask(u32::MAX).fits(200));
}

#[test]
fn the_reverse_of_a_move_keeps_the_layers() {
    let puzzle = puzzle();
    let r = layered(0b001, 0);
    let back = puzzle.reverse_twist(r);
    assert_eq!(back, layered(0b001, 1));
    assert_eq!(puzzle.reverse_twist(back), r);
    let own = layered(0b010, 4);
    assert_eq!(puzzle.reverse_twist(own), own);
    assert_eq!(puzzle.ndim(), 3);
}

#[test]
fn the_canonical_move_has_the_smaller_mask() {
    let puzzle = puzzle();
    assert_eq!(puzzle.canonicalize_twist(layered(0b001, 0)), layered(0b001, 0));
    assert_eq!(puzzle.canonicalize_twist(layered(0b100, 0)), layered(0b001, 3));
    assert_eq!(puzzle.canonicalize_twist(layered(0b110, 2)), layered(0b011, 1));
}

#[test]
fn equal_masks_are_decided_by_the_earlier_twist() {
    let puzzle = puzzle();
    assert_eq!(puzzle.canonicalize_twist(layered(0b010, 0)), layered(0b010, 0));
    assert_eq!(puzzle.canonicalize_twist(layered(0b010, 3)), layered(0b010, 0));
    assert_eq!(puzzle.canonicalize_twist(layered(0b101, 2)), layered(0b101, 1));
}

#[test]
fn a_move_without_opposite_is_its_own_canonical_form() {
    let puzzle = puzzle();
    assert_eq!(puzzle.canonicalize_twist(layered(0b100, 4)), layered(0b100, 4));
}

#[test]
fn a_move_and_its_opposite_move_share_their_canonical_form() {
    let puzzle = puzzle();
    for twist in 0..4u32 {
        for mask in 0..8u32 {
            let m = layered(mask, twist);
            let opposite = puzzle.twists.at(Twist(twist)).opposite.unwrap();
            let other = LayeredTwist {
                layers: LayerMask(mask).reversed(3),
                transform: opposite,
            };
            assert_eq!(puzzle.twists.at(opposite).opposite, Some(Twist(twist)));
            assert_eq!(
                puzzle.canonicalize_twist(m),
                puzzle.canonicalize_twist(other)
            );
        }
    }
}

#[test]
fn a_mask_beyond_the_layer_count_breaks_the_shared_canonical_form() {
    let puzzle = puzzle();
    let m = layered(0b1000, 0);
    let other = LayeredTwist {
        layers: m.layers.reversed(3),
        transform: Twist(3),
    };
    assert_eq!(other.layers, LayerMask(0));
    assert_eq!(puzzle.canonicalize_twist(m), layered(0, 3));
    assert_eq!(puzzle.canonicalize_twist(other), layered(0, 0));
}
