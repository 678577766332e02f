//! An order of the elements of one kind that the caller may rearrange.
//!
//! The order is for presentation and iteration; it does not depend on the
//! order in which the elements were created. Whatever the caller does to it,
//! it holds every live ID exactly once.

use crate::ids::{IndexNewtype, IndexOutOfRange, IndexOverflow};
use core::marker::PhantomData;
use vstd::prelude::*;

verus! {

/// Whether `order` holds each of the indices `0..order.len()` exactly once.
pub open spec fn is_permutation(order: Seq<usize>) -> bool {
    &&& forall|k: int| 0 <= k < order.len() ==> #[trigger] order[k] < order.len()
    &&& forall|k: int, l: int| 0 <= k < l < order.len() ==> order[k] != order[l]
    &&& forall|i: usize| i < order.len() ==> #[trigger] order.contains(i)
}

/// A permutation is a bijection onto the indices below its length: every
/// such index stands at exactly one position.
pub proof fn lemma_permutation_is_bijection(order: Seq<usize>, index: usize)
    requires
        is_permutation(order),
        index < order.len(),
    ensures
        0 <= order.index_of(index) < order.len(),
        order[order.index_of(index)] == index,
        forall|k: int| 0 <= k < order.len() && order[k] == index ==> k == order.index_of(index),
{
    assert(order.contains(index));
    let at = order.index_of(index);
    assert forall|k: int| 0 <= k < order.len() && order[k] == index implies k == at by {
        if k < at {
            assert(order[k] != order[at]);
        } else if at < k {
            assert(order[at] != order[k]);
        }
    }
}

/// The order `0, 1, .., n - 1`.
pub open spec fn identity_order(n: nat) -> Seq<usize> {
    Seq::new(n, |k: int| k as usize)
}

/// `order` after the entries at positions `a` and `b` have changed places.
pub open spec fn swapped(order: Seq<usize>, a: int, b: int) -> Seq<usize> {
    order.update(a, order[b]).update(b, order[a])
}

/// `order` after the entry at position `from` has been taken out and put
/// back at position `to`; the entries between the two move by one.
pub open spec fn shifted(order: Seq<usize>, from: int, to: int) -> Seq<usize> {
    order.remove(from).insert(to, order[from])
}

/// Whether the entries of `order` grow strictly.
pub open spec fn is_ascending(order: Seq<usize>) -> bool {
    forall|k: int, l: int| 0 <= k < l < order.len() ==> order[k] < order[l]
}

/// The live IDs that `explicit` names, each where it is named first, as
/// indices: an ID is live when its index is below `n`.
pub open spec fn explicit_part<I: IndexNewtype>(n: nat, explicit: Seq<I>) -> Seq<usize>
    decreases explicit.len(),
{
    if explicit.len() == 0 {
        Seq::empty()
    } else {
        let before = explicit_part(n, explicit.drop_last());
        let index = explicit.last().index_spec();
        if index < n && !before.contains(index as usize) {
            before.push(index as usize)
        } else {
            before
        }
    }
}

/// Swapping two entries of a permutation leaves a permutation.
pub proof fn lemma_swapped_is_permutation(order: Seq<usize>, a: int, b: int)
    requires
        is_permutation(order),
        0 <= a < order.len(),
        0 <= b < order.len(),
    ensures
        is_permutation(swapped(order, a, b)),
        swapped(order, a, b).len() == order.len(),
{
    let after = swapped(order, a, b);
    assert forall|i: usize| i < after.len() implies #[trigger] after.contains(i) by {
        assert(order.contains(i));
        let k = choose|k: int| 0 <= k < order.len() && order[k] == i;
        if k == a {
            assert(after[b] == i);
        } else if k == b {
            assert(after[a] == i);
        } else {
            assert(after[k] == i);
        }
    }
}

/// Position in `order` of the entry that `shifted(order, from, to)` holds
/// at position `k`.
pub open spec fn shift_source(from: int, to: int, k: int) -> int {
    if k == to {
        from
    } else if from < to {
        if from <= k < to {
            k + 1
        } else {
            k
        }
    } else {
        if to < k <= from {
            k - 1
        } else {
            k
        }
    }
}

/// Where each entry of a shifted order comes from.
pub proof fn lemma_shifted_entries(order: Seq<usize>, from: int, to: int)
    requires
        0 <= from < order.len(),
        0 <= to < order.len(),
    ensures
        shifted(order, from, to).len() == order.len(),
        forall|k: int|
            0 <= k < order.len() ==> #[trigger] shifted(order, from, to)[k] == order[shift_source(
                from,
                to,
                k,
            )],
{
    let without = order.remove(from);
    let after = without.insert(to, order[from]);
    order.remove_ensures(from);
    without.insert_ensures(to, order[from]);
    assert forall|k: int| 0 <= k < order.len() implies #[trigger] after[k] == order[shift_source(
        from,
        to,
        k,
    )] by {
        if k < to {
            assert(after[k] == without[k]);
        } else if k > to {
            assert(after[(k - 1) + 1] == without[k - 1]);
        }
    }
}

/// Moving one entry of a permutation to another position leaves a
/// permutation.
pub proof fn lemma_shifted_is_permutation(order: Seq<usize>, from: int, to: int)
    requires
        is_permutation(order),
        0 <= from < order.len(),
        0 <= to < order.len(),
    ensures
        is_permutation(shifted(order, from, to)),
        shifted(order, from, to).len() == order.len(),
{
    let after = shifted(order, from, to);
    lemma_shifted_entries(order, from, to);
    assert forall|k: int| 0 <= k < after.len() implies #[trigger] after[k] < after.len() by {
        assert(after[k] == order[shift_source(from, to, k)]);
    }
    assert forall|k: int, l: int| 0 <= k < l < after.len() implies after[k] != after[l] by {
        assert(after[k] == order[shift_source(from, to, k)]);
        assert(after[l] == order[shift_source(from, to, l)]);
        assert(shift_source(from, to, k) != shift_source(from, to, l));
    }
    assert forall|i: usize| i < after.len() implies #[trigger] after.contains(i) by {
        assert(order.contains(i));
        let k = choose|k: int| 0 <= k < order.len() && order[k] == i;
        let target = if k == from {
            to
        } else if from < to {
            if from < k <= to {
                k - 1
            } else {
                k
            }
        } else {
            if to <= k < from {
                k + 1
            } else {
                k
            }
        };
        assert(shift_source(from, to, target) == k);
        assert(after[target] == i);
    }
}

/// Moving an entry from the ascending tail of an order to the tail's start
/// extends the head by that entry and leaves the rest of the tail ascending.
proof fn lemma_shift_to_head(order: Seq<usize>, placed: int, position: int)
    requires
        0 <= placed <= position < order.len(),
        is_ascending(order.skip(placed)),
    ensures
        shifted(order, position, placed).take(placed + 1) == order.take(placed).push(
            order[position],
        ),
        is_ascending(shifted(order, position, placed).skip(placed + 1)),
{
    let after = shifted(order, position, placed);
    lemma_shifted_entries(order, position, placed);
    let head = after.take(placed + 1);
    let expected = order.take(placed).push(order[position]);
    assert(head.len() == expected.len());
    assert forall|k: int| 0 <= k < head.len() implies head[k] == expected[k] by {
        assert(after[k] == order[shift_source(position, placed, k)]);
    }
    assert(head =~= expected);
    let tail = after.skip(placed + 1);
    let old_tail = order.skip(placed);
    assert forall|k: int, l: int| 0 <= k < l < tail.len() implies tail[k] < tail[l] by {
        let sk = shift_source(position, placed, placed + 1 + k);
        let sl = shift_source(position, placed, placed + 1 + l);
        assert(after[placed + 1 + k] == order[sk]);
        assert(after[placed + 1 + l] == order[sl]);
        assert(order[sk] == old_tail[sk - placed]);
        assert(order[sl] == old_tail[sl - placed]);
        assert(0 <= sk - placed < sl - placed < old_tail.len());
    }
}

/// Order of the elements of one kind, as the user wants them listed.
pub struct CustomOrdering<I: IndexNewtype> {
    order: Vec<usize>,
    marker: PhantomData<I>,
}

impl<I: IndexNewtype> View for CustomOrdering<I> {
    type V = Seq<usize>;

    /// The indices of the IDs, in the order's own order.
    closed spec fn view(&self) -> Seq<usize> {
        self.order@
    }
}

impl<I: IndexNewtype> CustomOrdering<I> {
    /// The order holds every live ID exactly once, and every live ID fits
    /// the ID type.
    pub open spec fn wf(&self) -> bool {
        &&& is_permutation(self@)
        &&& self@.len() <= I::max_index_spec() + 1
    }

    /// The IDs in the order's own order.
    pub open spec fn ids(&self) -> Seq<I> {
        self@.map_values(|index: usize| I::from_index_spec(index as nat))
    }

    /// Whether `id` is one of the IDs that the order holds.
    pub open spec fn is_live(&self, id: I) -> bool {
        id.index_spec() < self@.len()
    }

    /// Position at which the order holds `id`.
    pub open spec fn position_of(&self, id: I) -> int
        recommends
            self.wf(),
            self.is_live(id),
    {
        self@.index_of(id.index_spec() as usize)
    }

    /// Order of no element.
    pub fn new() -> (r: Self)
        ensures
            r@ == Seq::<usize>::empty(),
            r.wf(),
    {
        let r = CustomOrdering { order: Vec::new(), marker: PhantomData };
        assert(is_permutation(r@));
        r
    }

    /// Order of the `len` first IDs, in the order of their creation. Fails when
    /// the ID type does not have that many IDs.
    pub fn with_len(len: usize) -> (r: Result<Self, IndexOverflow>)
        ensures
            r is Ok <==> len <= I::max_index_spec() + 1,
            r matches Ok(ordering) ==> ordering@ == identity_order(len as nat) && ordering.wf(),
            r matches Err(e) ==> e.max_index == I::max_index_spec(),
    {
        let max_index = I::max_index();
        if len > 0 && len - 1 > max_index {
            return Err(IndexOverflow { max_index });
        }
        let mut order: Vec<usize> = Vec::new();
        let mut k: usize = 0;
        while k < len
            invariant
                k <= len,
                order@ =~= identity_order(k as nat),
            decreases len - k,
        {
            order.push(k);
            k += 1;
        }
        let r = CustomOrdering { order, marker: PhantomData };
        proof {
            assert forall|i: usize| i < r@.len() implies #[trigger] r@.contains(i) by {
                assert(r@[i as int] == i);
            }
        }
        Ok(r)
    }

    /// Number of IDs that the order holds.
    pub fn len(&self) -> (r: usize)
        ensures
            r == self@.len(),
    {
        self.order.len()
    }

    /// Appends a newly created ID at the end of the order. The ID must be the
    /// next one: its index is the number of IDs so far. Otherwise nothing
    /// changes and the error says so.
    pub fn add(&mut self, id: I) -> (r: Result<(), IndexOutOfRange>)
        requires
            old(self).wf(),
        ensures
            final(self).wf(),
            r is Ok <==> id.index_spec() == old(self)@.len() && id.index_spec()
                <= I::max_index_spec(),
            r is Ok ==> final(self)@ == old(self)@.push(id.index_spec() as usize),
            r matches Err(e) ==> final(self)@ == old(self)@ && e.index == id.index_spec() && e.len
                == old(self)@.len(),
    {
        let index = id.to_usize();
        let len = self.order.len();
        if index != len || index > I::max_index() {
            return Err(IndexOutOfRange { index, len });
        }
        let ghost before = self@;
        self.order.push(index);
        proof {
            let after = self@;
            assert forall|i: usize| i < after.len() implies #[trigger] after.contains(i) by {
                if i < before.len() {
                    assert(before.contains(i));
                    let k = choose|k: int| 0 <= k < before.len() && before[k] == i;
                    assert(after[k] == i);
                } else {
                    assert(after[before.len() as int] == i);
                }
            }
        }
        Ok(())
    }

    /// The IDs in the order's own order.
    pub fn ids_in_order(&self) -> (r: Vec<I>)
        requires
            self.wf(),
        ensures
            r@ == self.ids(),
            forall|k: int| 0 <= k < r@.len() ==> (#[trigger] r@[k]).index_spec() == self@[k],
    {
        let mut ids: Vec<I> = Vec::new();
        let mut k: usize = 0;
        while k < self.order.len()
            invariant
                self.wf(),
                k <= self@.len(),
                ids@.len() == k,
                forall|j: int| 0 <= j < k ==> (#[trigger] ids@[j]).index_spec() == self@[j],
                forall|j: int| 0 <= j < k ==> #[trigger] ids@[j] == I::from_index_spec(self@[j] as nat),
            decreases self@.len() - k,
        {
            let id: I = match I::try_from_usize(self.order[k]) {
                Ok(id) => id,
                Err(_) => {
                    assert(self@[k as int] < self@.len());
                    unreached()
                },
            };
            ids.push(id);
            k += 1;
        }
        assert(ids@ =~= self.ids());
        ids
    }

    /// Position at which the order holds `id`; an error when `id` is not
    /// live.
    pub fn get_index(&self, id: I) -> (r: Result<usize, IndexOutOfRange>)
        requires
            self.wf(),
        ensures
            r is Ok <==> self.is_live(id),
            r matches Ok(position) ==> position < self@.len() && self@[position as int]
                == id.index_spec() && position == self.position_of(id),
            r matches Err(e) ==> e.index == id.index_spec() && e.len == self@.len(),
    {
        let index = id.to_usize();
        let len = self.order.len();
        if index >= len {
            return Err(IndexOutOfRange { index, len });
        }
        let mut k: usize = 0;
        while k < len
            invariant
                self.wf(),
                len == self@.len(),
                index == id.index_spec(),
                index < len,
                k <= len,
                forall|j: int| 0 <= j < k ==> self@[j] != index,
            decreases len - k,
        {
            if self.order[k] == index {
                proof {
                    let other = self@.index_of(index);
                    assert(self@.contains(index));
                    assert(0 <= other < self@.len() && self@[other] == index);
                }
                return Ok(k);
            }
            k += 1;
        }
        proof {
            assert(self@.contains(index));
            let j = choose|j: int| 0 <= j < self@.len() && self@[j] == index;
            assert(self@[j] != index);
        }
        unreached()
    }

    /// Lets `id` change places with the entry at position `new_index`.
    /// Fails, and changes nothing, when `id` is not live or the position is
    /// beyond the end; the error names the first of the two that is.
    pub fn swap_to_index(&mut self, id: I, new_index: usize) -> (r: Result<(), IndexOutOfRange>)
        requires
            old(self).wf(),
        ensures
            final(self).wf(),
            final(self)@.len() == old(self)@.len(),
            r is Ok <==> old(self).is_live(id) && new_index < old(self)@.len(),
            r is Ok ==> final(self)@ == swapped(
                old(self)@,
                old(self).position_of(id),
                new_index as int,
            ),
            r matches Err(e) ==> final(self)@ == old(self)@ && e.len == old(self)@.len() && e.index
                == (if old(self).is_live(id) {
                new_index as nat
            } else {
                id.index_spec()
            }),
    {
        let position = match self.get_index(id) {
            Ok(position) => position,
            Err(e) => {
                return Err(e);
            },
        };
        let len = self.order.len();
        if new_index >= len {
            return Err(IndexOutOfRange { index: new_index, len });
        }
        proof {
            lemma_swapped_is_permutation(self@, position as int, new_index as int);
        }
        let here = self.order[position];
        let there = self.order[new_index];
        self.order.set(position, there);
        self.order.set(new_index, here);
        Ok(())
    }

    /// Takes `id` out of the order and puts it back at position `new_index`;
    /// the entries between its old and its new position move by one. Fails,
    /// and changes nothing, when `id` is not live or the position is beyond
    /// the end; the error names the first of the two that is.
    pub fn shift_to_index(&mut self, id: I, new_index: usize) -> (r: Result<(), IndexOutOfRange>)
        requires
            old(self).wf(),
        ensures
            final(self).wf(),
            final(self)@.len() == old(self)@.len(),
            r is Ok <==> old(self).is_live(id) && new_index < old(self)@.len(),
            r is Ok ==> final(self)@ == shifted(
                old(self)@,
                old(self).position_of(id),
                new_index as int,
            ),
            r matches Err(e) ==> final(self)@ == old(self)@ && e.len == old(self)@.len() && e.index
                == (if old(self).is_live(id) {
                new_index as nat
            } else {
                id.index_spec()
            }),
    {
        let position = match self.get_index(id) {
            Ok(position) => position,
            Err(e) => {
                return Err(e);
            },
        };
        let len = self.order.len();
        if new_index >= len {
            return Err(IndexOutOfRange { index: new_index, len });
        }
        proof {
            lemma_shifted_is_permutation(self@, position as int, new_index as int);
            self@.remove_ensures(position as int);
        }
        let index = self.order.remove(position);
        self.order.insert(new_index, index);
        Ok(())
    }

    /// Rearranges the order after a list that the caller supplies. The live
    /// IDs that `explicit` names come first, each where it is named first;
    /// the live IDs that it does not name follow in the order of their
    /// creation. IDs that are not live are passed over.
    pub fn reorder(&mut self, explicit: &Vec<I>)
        requires
            old(self).wf(),
        ensures
            final(self).wf(),
            final(self)@.len() == old(self)@.len(),
            explicit_part(old(self)@.len(), explicit@).len() <= old(self)@.len(),
            final(self)@.take(explicit_part(old(self)@.len(), explicit@).len() as int)
                == explicit_part(old(self)@.len(), explicit@),
            is_ascending(
                final(self)@.skip(explicit_part(old(self)@.len(), explicit@).len() as int),
            ),
    {
        let n = self.order.len();
        let mut k: usize = 0;
        while k < n
            invariant
                n == self@.len(),
                n <= I::max_index_spec() + 1,
                k <= n,
                forall|j: int| 0 <= j < k ==> self@[j] == j,
            decreases n - k,
        {
            self.order.set(k, k);
            k += 1;
        }
        proof {
            assert(self@ =~= identity_order(n as nat));
            assert forall|i: usize| i < self@.len() implies #[trigger] self@.contains(i) by {
                assert(self@[i as int] == i);
            }
            assert(explicit@.take(0) =~= Seq::empty());
            assert(self@.take(0) =~= Seq::empty());
        }
        let mut placed: usize = 0;
        let mut j: usize = 0;
        while j < explicit.len()
            invariant
                self.wf(),
                n == self@.len(),
                j <= explicit@.len(),
                placed <= n,
                self@.take(placed as int) == explicit_part(n as nat, explicit@.take(j as int)),
                is_ascending(self@.skip(placed as int)),
            decreases explicit@.len() - j,
        {
            let id = explicit[j];
            let ghost head = self@.take(placed as int);
            assert(explicit@.take(j as int + 1).drop_last() =~= explicit@.take(j as int));
            match self.get_index(id) {
                Ok(position) => {
                    if position >= placed {
                        proof {
                            assert(!head.contains(id.index_spec() as usize)) by {
                                if head.contains(id.index_spec() as usize) {
                                    let m = choose|m: int|
                                        0 <= m < head.len() && head[m] == id.index_spec() as usize;
                                    assert(self@[m] == self@[position as int]);
                                }
                            }
                            lemma_shifted_is_permutation(self@, position as int, placed as int);
                            lemma_shift_to_head(self@, placed as int, position as int);
                            self@.remove_ensures(position as int);
                        }
                        let index = self.order.remove(position);
                        self.order.insert(placed, index);
                        placed += 1;
                    } else {
                        assert(head[position as int] == id.index_spec() as usize);
                    }
                },
                Err(_) => {},
            }
            j += 1;
        }
        proof {
            assert(explicit@.take(j as int) =~= explicit@);
        }
    }
}

} // verus!
