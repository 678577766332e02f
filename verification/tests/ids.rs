use hyperpuzzle::ids::{Color, Facet, IndexNewtype, Layer, Piece, Twist};

#[test]
fn ids_convert_to_and_from_indices() {
    assert_eq!(Piece(7).to_usize(), 7);
    assert_eq!(Piece::try_from_usize(7), Ok(Piece(7)));
    assert_eq!(Twist::try_from_usize(4_000_000_000), Ok(Twist(4_000_000_000)));
    assert!(Layer::try_from_usize(256).is_err());
    assert_eq!(Layer::try_from_usize(255), Ok(Layer(255)));
}

#[test]
fn sentinels_are_never_live() {
    assert_eq!(Facet::none(), Facet(u16::MAX));
    assert_eq!(Color::internal(), Color(u16::MAX));
    assert!(Facet::none().is_none());
    assert!(!Facet(3).is_none());
    assert!(Color::internal().is_internal());
    assert!(Facet::try_from_usize(65535).is_err());
    assert!(Color::try_from_usize(65535).is_err());
    assert_eq!(Color::try_from_usize(65534), Ok(Color(65534)));
    assert_eq!(Facet::max_index(), 65534);
}
