//! Dense containers that hold one value per ID.

use crate::ids::{Axis, Color, Facet, IndexNewtype, IndexOutOfRange, IndexOverflow, Layer, Piece, PieceType, Sticker, Twist};
use core::marker::PhantomData;
use vstd::prelude::*;

verus! {

/// List with one value per ID of kind `I`. The value of the ID with index
/// `i` is the `i`-th value; the IDs in use are exactly `0..len`.
#[derive(Debug, PartialEq, Eq)]
pub struct GenericVec<I: IndexNewtype, T> {
    values: Vec<T>,
    marker: PhantomData<I>,
}

/// List with one value per piece.
pub type PerPiece<T> = GenericVec<Piece, T>;

/// List with one value per sticker.
pub type PerSticker<T> = GenericVec<Sticker, T>;

/// List with one value per facet.
pub type PerFacet<T> = GenericVec<Facet, T>;

/// List with one value per color.
pub type PerColor<T> = GenericVec<Color, T>;

/// List with one value per twist axis.
pub type PerAxis<T> = GenericVec<Axis, T>;

/// List with one value per twist.
pub type PerTwist<T> = GenericVec<Twist, T>;

/// List with one value per layer.
pub type PerLayer<T> = GenericVec<Layer, T>;

/// List with one value per piece type.
pub type PerPieceType<T> = GenericVec<PieceType, T>;

impl<I: IndexNewtype, T> View for GenericVec<I, T> {
    type V = Seq<T>;

    closed spec fn view(&self) -> Seq<T> {
        self.values@
    }
}

impl<I: IndexNewtype, T: Clone> Clone for GenericVec<I, T> {
    fn clone(&self) -> (r: Self)
        ensures
            r@.len() == self@.len(),
            forall|i: int| 0 <= i < self@.len() ==> cloned::<T>(#[trigger] self@[i], r@[i]),
    {
        GenericVec { values: self.values.clone(), marker: PhantomData }
    }
}

impl<I: IndexNewtype, T> GenericVec<I, T> {
    /// Every element has an ID: the list is no longer than the ID type allows.
    pub open spec fn wf(&self) -> bool {
        self@.len() <= I::max_index_spec() + 1
    }

    /// Whether `id` names an element of the list.
    pub open spec fn has(&self, id: I) -> bool {
        id.index_spec() < self@.len()
    }

    /// Value of the element that `id` names.
    pub open spec fn value(&self, id: I) -> T
        recommends
            self.has(id),
    {
        self@[id.index_spec() as int]
    }

    /// Empty list.
    pub fn new() -> (r: Self)
        ensures
            r@ == Seq::<T>::empty(),
            r.wf(),
    {
        GenericVec { values: Vec::new(), marker: PhantomData }
    }

    /// Number of elements.
    pub fn len(&self) -> (r: usize)
        ensures
            r == self@.len(),
    {
        self.values.len()
    }

    /// Whether the list has no element.
    pub fn is_empty(&self) -> (r: bool)
        ensures
            r == (self@.len() == 0),
    {
        self.values.len() == 0
    }

    /// ID that the next pushed element gets, unless the ID type is used up.
    pub fn next_idx(&self) -> (r: Result<I, IndexOverflow>)
        ensures
            r is Ok <==> self@.len() <= I::max_index_spec(),
            r matches Ok(id) ==> id.index_spec() == self@.len(),
            r matches Err(e) ==> e.max_index == I::max_index_spec(),
    {
        I::try_from_usize(self.values.len())
    }

    /// Appends a value and returns its ID. Fails, and changes nothing, when
    /// the ID type has no index left.
    pub fn push(&mut self, value: T) -> (r: Result<I, IndexOverflow>)
        requires
            old(self).wf(),
        ensures
            final(self).wf(),
            r is Ok <==> old(self)@.len() <= I::max_index_spec(),
            r matches Ok(id) ==> id.index_spec() == old(self)@.len() && final(self)@ == old(
                self,
            )@.push(value),
            r matches Err(e) ==> e.max_index == I::max_index_spec() && final(self)@ == old(self)@,
    {
        match I::try_from_usize(self.values.len()) {
            Ok(id) => {
                self.values.push(value);
                Ok(id)
            },
            Err(e) => Err(e),
        }
    }

    /// Whether `id` names an element of the list.
    pub fn contains_key(&self, id: I) -> (r: bool)
        ensures
            r == self.has(id),
    {
        id.to_usize() < self.values.len()
    }

    /// Value of the element that `id` names, or an error when there is none.
    pub fn get(&self, id: I) -> (r: Result<&T, IndexOutOfRange>)
        ensures
            r is Ok <==> self.has(id),
            r matches Ok(v) ==> *v == self.value(id),
            r matches Err(e) ==> e.index == id.index_spec() && e.len == self@.len(),
    {
        let i = id.to_usize();
        if i < self.values.len() {
            Ok(&self.values[i])
        } else {
            Err(IndexOutOfRange { index: i, len: self.values.len() })
        }
    }

    /// Value of the element that `id` names.
    pub fn at(&self, id: I) -> (r: &T)
        requires
            self.has(id),
        ensures
            *r == self.value(id),
    {
        &self.values[id.to_usize()]
    }

    /// The element that `id` names, for changing it in place.
    pub fn at_mut(&mut self, id: I) -> (r: &mut T)
        requires
            old(self).has(id),
        ensures
            *r == old(self).value(id),
            final(self)@ == old(self)@.update(id.index_spec() as int, *final(r)),
    {
        let i = id.to_usize();
        &mut self.values[i]
    }

    /// Value at a position of the list.
    pub fn at_index(&self, index: usize) -> (r: &T)
        requires
            index < self@.len(),
        ensures
            *r == self@[index as int],
    {
        &self.values[index]
    }

    /// Replaces the value of the element that `id` names. Fails, and changes
    /// nothing, when there is no such element.
    pub fn set(&mut self, id: I, value: T) -> (r: Result<(), IndexOutOfRange>)
        ensures
            r is Ok <==> old(self).has(id),
            r is Ok ==> final(self)@ == old(self)@.update(id.index_spec() as int, value),
            r matches Err(e) ==> e.index == id.index_spec() && e.len == old(self)@.len()
                && final(self)@ == old(self)@,
            old(self).wf() ==> final(self).wf(),
    {
        let i = id.to_usize();
        if i < self.values.len() {
            self.values.set(i, value);
            Ok(())
        } else {
            Err(IndexOutOfRange { index: i, len: self.values.len() })
        }
    }

    /// IDs of the elements, in order.
    pub fn keys(&self) -> (r: Vec<I>)
        requires
            self.wf(),
        ensures
            r@.len() == self@.len(),
            forall|i: int| 0 <= i < r@.len() ==> (#[trigger] r@[i]).index_spec() == i,
    {
        let mut out: Vec<I> = Vec::new();
        let n: usize = self.values.len();
        let mut i: usize = 0;
        while i < n
            invariant
                n == self@.len(),
                self.wf(),
                i <= n,
                out@.len() == i,
                forall|j: int| 0 <= j < out@.len() ==> (#[trigger] out@[j]).index_spec() == j,
            decreases n - i,
        {
            let id: I = match I::try_from_usize(i) {
                Ok(id) => id,
                Err(_) => unreached(),
            };
            out.push(id);
            i += 1;
        }
        out
    }
}

} // verus!
