//! Typed, dense, zero-based IDs of the elements of a puzzle.

use vstd::prelude::*;

verus! {

/// Error: an index is larger than the ID type allows for a live element.
#[derive(Debug, Clone, Copy, PartialEq, Eq, Structural)]
pub struct IndexOverflow {
    /// Largest index that the ID type allows.
    pub max_index: usize,
}

/// Error: an ID does not name an element of the container.
#[derive(Debug, Clone, Copy, PartialEq, Eq, Structural)]
pub struct IndexOutOfRange {
    /// Index that was asked for.
    pub index: usize,
    /// Number of elements in the container.
    pub len: usize,
}

/// An ID type: a small unsigned integer that names one element of its kind.
pub trait IndexNewtype: Copy + Sized {
    /// Index that the ID stands for.
    spec fn index_spec(self) -> nat;

    /// Largest index that a live element of this kind may have.
    spec fn max_index_spec() -> nat;

    /// ID that stands for an index.
    spec fn from_index_spec(index: nat) -> Self;

    /// Two IDs with the same index are the same ID.
    proof fn index_is_injective(a: Self, b: Self)
        requires
            a.index_spec() == b.index_spec(),
        ensures
            a == b,
    ;

    /// The ID for the index of a live element stands for that index.
    proof fn from_index_is_inverse(index: nat)
        requires
            index <= Self::max_index_spec(),
        ensures
            Self::from_index_spec(index).index_spec() == index,
    ;

    /// Largest index that a live element of this kind may have.
    fn max_index() -> (r: usize)
        ensures
            r == Self::max_index_spec(),
    ;

    /// Index that the ID stands for.
    fn to_usize(self) -> (r: usize)
        ensures
            r == self.index_spec(),
    ;

    /// ID for an index, unless the index is too large for a live element.
    fn try_from_usize(index: usize) -> (r: Result<Self, IndexOverflow>)
        ensures
            r is Ok <==> index <= Self::max_index_spec(),
            r matches Ok(id) ==> id.index_spec() == index && id == Self::from_index_spec(
                index as nat,
            ),
            r matches Err(e) ==> e.max_index == Self::max_index_spec(),
    ;
}

/// ID of a piece: a rigid part of the puzzle that moves as one.
#[derive(Debug, Clone, Copy, PartialEq, Eq, Structural, Hash)]
pub struct Piece(pub u16);

impl IndexNewtype for Piece {
    open spec fn index_spec(self) -> nat {
        self.0 as nat
    }

    open spec fn from_index_spec(index: nat) -> Self {
        Piece(index as u16)
    }

    proof fn from_index_is_inverse(index: nat) {
        assert(Piece::max_index_spec() == 65535);
    }

    open spec fn max_index_spec() -> nat {
        65535
    }

    proof fn index_is_injective(a: Self, b: Self) {
    }

    fn max_index() -> (r: usize) {
        65535
    }

    fn to_usize(self) -> (r: usize) {
        self.0 as usize
    }

    fn try_from_usize(index: usize) -> (r: Result<Self, IndexOverflow>) {
        if index <= 65535 {
            Ok(Piece(index as u16))
        } else {
            Err(IndexOverflow { max_index: 65535 })
        }
    }
}

/// ID of a sticker: one face of a piece, of a single color.
#[derive(Debug, Clone, Copy, PartialEq, Eq, Structural, Hash)]
pub struct Sticker(pub u16);

impl IndexNewtype for Sticker {
    open spec fn index_spec(self) -> nat {
        self.0 as nat
    }

    open spec fn from_index_spec(index: nat) -> Self {
        Sticker(index as u16)
    }

    proof fn from_index_is_inverse(index: nat) {
        assert(Sticker::max_index_spec() == 65535);
    }

    open spec fn max_index_spec() -> nat {
        65535
    }

    proof fn index_is_injective(a: Self, b: Self) {
    }

    fn max_index() -> (r: usize) {
        65535
    }

    fn to_usize(self) -> (r: usize) {
        self.0 as usize
    }

    fn try_from_usize(index: usize) -> (r: Result<Self, IndexOverflow>) {
        if index <= 65535 {
            Ok(Sticker(index as u16))
        } else {
            Err(IndexOverflow { max_index: 65535 })
        }
    }
}

/// ID of a facet: a boundary of the base shape, shared by one or more stickers.
#[derive(Debug, Clone, Copy, PartialEq, Eq, Structural, Hash)]
pub struct Facet(pub u16);

impl Facet {
    /// Facet that stands for "no facet", as for stickers of internal pieces.
    /// It is the largest value of the type and never the ID of a live element.
    pub fn none() -> (r: Facet)
        ensures
            r == Facet(u16::MAX),
            r.index_spec() > Facet::max_index_spec(),
    {
        Facet(u16::MAX)
    }

    /// Whether this is the reserved "no facet" value.
    pub fn is_none(self) -> (r: bool)
        ensures
            r == (self == Facet(u16::MAX)),
            r == (self.index_spec() > Facet::max_index_spec()),
    {
        self.0 == u16::MAX
    }
}

impl IndexNewtype for Facet {
    open spec fn index_spec(self) -> nat {
        self.0 as nat
    }

    open spec fn from_index_spec(index: nat) -> Self {
        Facet(index as u16)
    }

    proof fn from_index_is_inverse(index: nat) {
        assert(Facet::max_index_spec() == 65534);
    }

    open spec fn max_index_spec() -> nat {
        65534
    }

    proof fn index_is_injective(a: Self, b: Self) {
    }

    fn max_index() -> (r: usize) {
        65534
    }

    fn to_usize(self) -> (r: usize) {
        self.0 as usize
    }

    fn try_from_usize(index: usize) -> (r: Result<Self, IndexOverflow>) {
        if index <= 65534 {
            Ok(Facet(index as u16))
        } else {
            Err(IndexOverflow { max_index: 65534 })
        }
    }
}

/// ID of a color that appears on stickers.
#[derive(Debug, Clone, Copy, PartialEq, Eq, Structural, Hash)]
pub struct Color(pub u16);

impl Color {
    /// Color of internal stickers; it is part of no user-facing color scheme.
    /// It is the largest value of the type and never the ID of a live element.
    pub fn internal() -> (r: Color)
        ensures
            r == Color(u16::MAX),
            r.index_spec() > Color::max_index_spec(),
    {
        Color(u16::MAX)
    }

    /// Whether this is the reserved color of internal stickers.
    pub fn is_internal(self) -> (r: bool)
        ensures
            r == (self == Color(u16::MAX)),
            r == (self.index_spec() > Color::max_index_spec()),
    {
        self.0 == u16::MAX
    }
}

impl IndexNewtype for Color {
    open spec fn index_spec(self) -> nat {
        self.0 as nat
    }

    open spec fn from_index_spec(index: nat) -> Self {
        Color(index as u16)
    }

    proof fn from_index_is_inverse(index: nat) {
        assert(Color::max_index_spec() == 65534);
    }

    open spec fn max_index_spec() -> nat {
        65534
    }

    proof fn index_is_injective(a: Self, b: Self) {
    }

    fn max_index() -> (r: usize) {
        65534
    }

    fn to_usize(self) -> (r: usize) {
        self.0 as usize
    }

    fn try_from_usize(index: usize) -> (r: Result<Self, IndexOverflow>) {
        if index <= 65534 {
            Ok(Color(index as u16))
        } else {
            Err(IndexOverflow { max_index: 65534 })
        }
    }
}

/// ID of a twist axis: a unit that groups the twists around one direction.
#[derive(Debug, Clone, Copy, PartialEq, Eq, Structural, Hash)]
pub struct Axis(pub u16);

impl IndexNewtype for Axis {
    open spec fn index_spec(self) -> nat {
        self.0 as nat
    }

    open spec fn from_index_spec(index: nat) -> Self {
        Axis(index as u16)
    }

    proof fn from_index_is_inverse(index: nat) {
        assert(Axis::max_index_spec() == 65535);
    }

    open spec fn max_index_spec() -> nat {
        65535
    }

    proof fn index_is_injective(a: Self, b: Self) {
    }

    fn max_index() -> (r: usize) {
        65535
    }

    fn to_usize(self) -> (r: usize) {
        self.0 as usize
    }

    fn try_from_usize(index: usize) -> (r: Result<Self, IndexOverflow>) {
        if index <= 65535 {
            Ok(Axis(index as u16))
        } else {
            Err(IndexOverflow { max_index: 65535 })
        }
    }
}

/// ID of a twist: one move that can be applied to the puzzle.
#[derive(Debug, Clone, Copy, PartialEq, Eq, Structural, Hash)]
pub struct Twist(pub u32);

impl IndexNewtype for Twist {
    open spec fn index_spec(self) -> nat {
        self.0 as nat
    }

    open spec fn from_index_spec(index: nat) -> Self {
        Twist(index as u32)
    }

    proof fn from_index_is_inverse(index: nat) {
        assert(Twist::max_index_spec() == 4294967295);
    }

    open spec fn max_index_spec() -> nat {
        4294967295
    }

    proof fn index_is_injective(a: Self, b: Self) {
    }

    fn max_index() -> (r: usize) {
        4294967295
    }

    fn to_usize(self) -> (r: usize) {
        self.0 as usize
    }

    fn try_from_usize(index: usize) -> (r: Result<Self, IndexOverflow>) {
        if index <= 4294967295 {
            Ok(Twist(index as u32))
        } else {
            Err(IndexOverflow { max_index: 4294967295 })
        }
    }
}

/// ID of a layer: a depth region of one axis that a twist may turn.
#[derive(Debug, Clone, Copy, PartialEq, Eq, Structural, Hash)]
pub struct Layer(pub u8);

impl IndexNewtype for Layer {
    open spec fn index_spec(self) -> nat {
        self.0 as nat
    }

    open spec fn from_index_spec(index: nat) -> Self {
        Layer(index as u8)
    }

    proof fn from_index_is_inverse(index: nat) {
        assert(Layer::max_index_spec() == 255);
    }

    open spec fn max_index_spec() -> nat {
        255
    }

    proof fn index_is_injective(a: Self, b: Self) {
    }

    fn max_index() -> (r: usize) {
        255
    }

    fn to_usize(self) -> (r: usize) {
        self.0 as usize
    }

    fn try_from_usize(index: usize) -> (r: Result<Self, IndexOverflow>) {
        if index <= 255 {
            Ok(Layer(index as u8))
        } else {
            Err(IndexOverflow { max_index: 255 })
        }
    }
}

/// ID of a piece type: a named class of pieces.
#[derive(Debug, Clone, Copy, PartialEq, Eq, Structural, Hash)]
pub struct PieceType(pub u8);

impl IndexNewtype for PieceType {
    open spec fn index_spec(self) -> nat {
        self.0 as nat
    }

    open spec fn from_index_spec(index: nat) -> Self {
        PieceType(index as u8)
    }

    proof fn from_index_is_inverse(index: nat) {
        assert(PieceType::max_index_spec() == 255);
    }

    open spec fn max_index_spec() -> nat {
        255
    }

    proof fn index_is_injective(a: Self, b: Self) {
    }

    fn max_index() -> (r: usize) {
        255
    }

    fn to_usize(self) -> (r: usize) {
        self.0 as usize
    }

    fn try_from_usize(index: usize) -> (r: Result<Self, IndexOverflow>) {
        if index <= 255 {
            Ok(PieceType(index as u8))
        } else {
            Err(IndexOverflow { max_index: 255 })
        }
    }
}

} // verus!
