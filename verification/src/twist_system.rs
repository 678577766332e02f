//! Twists, while a puzzle is being described, and their relations once it
//! is finished.
//!
//! A twist is known by its key: the axis it turns around and the
//! transformation it applies. Asking twice for the same key gives the same
//! twist. Finishing the system makes it closed under reversal, so that
//! every twist has exactly one reverse, and resolves each opposite.

use crate::collections::{PerAxis, PerTwist};
use crate::ids::{Axis, IndexNewtype, IndexOverflow, Twist};
use crate::info::{AxisInfo, IsometryId, TwistInfo};
use crate::naming::{
    duplicates,
    resolve_names,
    resolved_name,
    runs_out_at,
    strings_view,
    unnamed_count,
    unused_names,
    warning_names,
    DuplicateName,
    NamingScheme,
    RanOutOfNames,
};
use crate::ordering::CustomOrdering;
use vstd::prelude::*;

verus! {

/// What tells twists apart: the axis and the transformation.
#[derive(Debug, Clone, Copy, PartialEq, Eq, Structural, Hash)]
pub struct TwistKey {
    /// Axis that the twist turns around.
    pub axis: Axis,
    /// Transformation that the twist applies.
    pub transform: IsometryId,
}

/// A twist that is being described.
#[derive(Debug, Clone, Copy, PartialEq, Eq, Structural)]
pub struct TwistBuilder {
    /// Axis that the twist turns around.
    pub axis: Axis,
    /// Transformation that the twist applies.
    pub transform: IsometryId,
    /// Transformation that undoes `transform`, as the geometry engine gives
    /// it.
    pub inverse_transform: IsometryId,
    /// Value of the twist in the quarter-turn metric.
    pub qtm: usize,
    /// Key of the opposite twist, if the twist has one.
    pub opposite: Option<TwistKey>,
}

impl TwistBuilder {
    /// Key of the twist.
    pub open spec fn key(self) -> TwistKey {
        TwistKey { axis: self.axis, transform: self.transform }
    }

    /// Key of the twist that undoes this one.
    pub open spec fn reverse_key(self) -> TwistKey {
        TwistKey { axis: self.axis, transform: self.inverse_transform }
    }

    /// The twist that undoes this one: the same axis and weight, the two
    /// transformations exchanged, and no opposite.
    pub open spec fn reversed(self) -> TwistBuilder {
        TwistBuilder {
            axis: self.axis,
            transform: self.inverse_transform,
            inverse_transform: self.transform,
            qtm: self.qtm,
            opposite: None,
        }
    }
}

/// Whether some twist of the list has the key.
pub open spec fn has_key(twists: Seq<TwistBuilder>, key: TwistKey) -> bool {
    exists|i: int| 0 <= i < twists.len() && (#[trigger] twists[i]).key() == key
}

/// Index of a twist of the list that has the key.
pub open spec fn index_of_key(twists: Seq<TwistBuilder>, key: TwistKey) -> int
    recommends
        has_key(twists, key),
{
    choose|i: int| 0 <= i < twists.len() && (#[trigger] twists[i]).key() == key
}

/// Whether no two twists of the list have the same key.
pub open spec fn keys_are_unique(twists: Seq<TwistBuilder>) -> bool {
    forall|i: int, j: int|
        0 <= i < j < twists.len() ==> (#[trigger] twists[i]).key() != (#[trigger] twists[j]).key()
}

/// The list after the reverses of its first `k` twists have been added
/// where they were missing, each at the end and in the order of the twists
/// that they undo.
pub open spec fn closed_under_reverse(twists: Seq<TwistBuilder>, k: nat) -> Seq<TwistBuilder>
    recommends
        k <= twists.len(),
    decreases k,
{
    if k == 0 {
        twists
    } else {
        let before = closed_under_reverse(twists, (k - 1) as nat);
        let twist = twists[k - 1];
        if has_key(before, twist.reverse_key()) {
            before
        } else {
            before.push(twist.reversed())
        }
    }
}

/// Closing a list under reversal keeps its twists where they are, keeps its
/// keys unique, and leaves every twist of the result with a reverse in it.
pub proof fn lemma_closed_under_reverse(twists: Seq<TwistBuilder>, k: nat)
    requires
        k <= twists.len(),
        keys_are_unique(twists),
    ensures
        twists.len() <= closed_under_reverse(twists, k).len() <= twists.len() + k,
        closed_under_reverse(twists, k).take(twists.len() as int) == twists,
        keys_are_unique(closed_under_reverse(twists, k)),
        forall|i: int|
            0 <= i < k ==> has_key(
                closed_under_reverse(twists, k),
                (#[trigger] twists[i]).reverse_key(),
            ),
        forall|i: int|
            twists.len() <= i < closed_under_reverse(twists, k).len() ==> has_key(
                closed_under_reverse(twists, k),
                (#[trigger] closed_under_reverse(twists, k)[i]).reverse_key(),
            ),
    decreases k,
{
    let after = closed_under_reverse(twists, k);
    if k == 0 {
        assert(after.take(twists.len() as int) =~= twists);
    } else {
        let before = closed_under_reverse(twists, (k - 1) as nat);
        lemma_closed_under_reverse(twists, (k - 1) as nat);
        let twist = twists[k - 1];
        assert(before[k - 1] == before.take(twists.len() as int)[k - 1]);
        if has_key(before, twist.reverse_key()) {
        } else {
            let added = twist.reversed();
            assert(after.take(twists.len() as int) =~= before.take(twists.len() as int));
            assert forall|i: int, j: int| 0 <= i < j < after.len() implies (
            #[trigger] after[i]).key() != (#[trigger] after[j]).key() by {
                if j == before.len() {
                    assert(before[i].key() != twist.reverse_key());
                }
            }
            assert forall|i: int| 0 <= i < k implies has_key(
                after,
                (#[trigger] twists[i]).reverse_key(),
            ) by {
                if i < k - 1 {
                    let w = choose|w: int|
                        0 <= w < before.len() && (#[trigger] before[w]).key()
                            == twists[i].reverse_key();
                    assert(after[w].key() == twists[i].reverse_key());
                } else {
                    assert(after[before.len() as int].key() == twist.reverse_key());
                }
            }
            assert forall|i: int| twists.len() <= i < after.len() implies has_key(
                after,
                (#[trigger] after[i]).reverse_key(),
            ) by {
                if i < before.len() {
                    let w = choose|w: int|
                        0 <= w < before.len() && (#[trigger] before[w]).key()
                            == before[i].reverse_key();
                    assert(after[w].key() == after[i].reverse_key());
                } else {
                    assert(after[k - 1] == twist);
                    assert(after[k - 1].key() == added.reverse_key());
                }
            }
        }
    }
}

/// With unique keys, the twist that has a key is the only one.
pub proof fn lemma_index_of_key(twists: Seq<TwistBuilder>, key: TwistKey, i: int)
    requires
        keys_are_unique(twists),
        0 <= i < twists.len(),
        twists[i].key() == key,
    ensures
        has_key(twists, key),
        index_of_key(twists, key) == i,
{
    let j = index_of_key(twists, key);
    assert(0 <= j < twists.len() && twists[j].key() == key);
    if j < i {
        assert(twists[j].key() != twists[i].key());
    } else if i < j {
        assert(twists[i].key() != twists[j].key());
    }
}

/// Why a twist system cannot be finished.
#[derive(Debug, Clone, Copy, PartialEq, Eq, Structural)]
pub enum TwistError {
    /// There are more twists, with the reverses that had to be added, than
    /// there are twist IDs.
    TooManyTwists(IndexOverflow),
    /// The twist turns around an axis that does not exist.
    NoSuchAxis {
        /// The twist whose axis is missing.
        twist: Twist,
    },
    /// The twist that undoes this one is not undone by it in turn: the two
    /// disagree on which transformation is the inverse of which.
    InconsistentReverse {
        /// The twist whose reverse does not lead back to it.
        twist: Twist,
    },
    /// The twist names an opposite that does not exist.
    MissingOpposite {
        /// The twist whose opposite is missing.
        twist: Twist,
    },
    /// The opposite of the twist does not name the twist as its opposite.
    OppositeNotMutual {
        /// The twist whose opposite does not lead back to it.
        twist: Twist,
    },
    /// The twist and its opposite turn around axes with different numbers of
    /// layers, so that no layer mask of the one can be reversed for the other.
    OppositeLayerMismatch {
        /// The twist whose opposite lies on an axis that does not match.
        twist: Twist,
    },
    /// There are fewer unused candidate names than twists without a name.
    RanOutOfNames(RanOutOfNames),
}

/// The number of layers of each axis, by ID.
pub open spec fn layer_counts(axes: Seq<AxisInfo>) -> Seq<nat> {
    axes.map_values(|axis: AxisInfo| axis.layers@.len())
}

/// Whether twist `i` turns around an axis that does not exist; `counts`
/// holds the number of layers of each axis that does.
pub open spec fn axis_is_missing(twists: Seq<TwistBuilder>, counts: Seq<nat>, i: int) -> bool {
    twists[i].axis.index_spec() >= counts.len()
}

/// What is wrong with the relations of twist `i`, if anything, in a list
/// that is closed under reversal and whose axes all exist; `counts` holds
/// the number of layers of each axis.
#[verifier::opaque]
pub open spec fn relation_fault(twists: Seq<TwistBuilder>, counts: Seq<nat>, i: int) -> Option<
    TwistError,
> {
    let twist = twists[i];
    let id = Twist(i as u32);
    let reverse = twists[index_of_key(twists, twist.reverse_key())];
    if reverse.inverse_transform != twist.transform {
        Some(TwistError::InconsistentReverse { twist: id })
    } else {
        match twist.opposite {
            None => None,
            Some(key) => {
                if !has_key(twists, key) {
                    Some(TwistError::MissingOpposite { twist: id })
                } else {
                    let opposite = twists[index_of_key(twists, key)];
                    if opposite.opposite != Some(twist.key()) {
                        Some(TwistError::OppositeNotMutual { twist: id })
                    } else if counts[opposite.axis.index_spec() as int]
                        != counts[twist.axis.index_spec() as int] {
                        Some(TwistError::OppositeLayerMismatch { twist: id })
                    } else {
                        None
                    }
                }
            },
        }
    }
}

/// The reverse of twist `t`.
pub open spec fn reverse_of(twists: Seq<TwistInfo>, t: Twist) -> Twist {
    twists[t.index_spec() as int].reverse
}

/// The opposite of twist `t`, if it has one.
pub open spec fn opposite_of(twists: Seq<TwistInfo>, t: Twist) -> Option<Twist> {
    twists[t.index_spec() as int].opposite
}

/// Whether the twists are those of a finished puzzle: every twist has a
/// reverse on the same axis that it is the reverse of, and the opposite of
/// a twist, where there is one, has the twist as its opposite.
pub open spec fn is_twist_system(twists: Seq<TwistInfo>) -> bool {
    &&& twists.len() <= Twist::max_index_spec() + 1
    &&& forall|i: int|
        0 <= i < twists.len() ==> {
            let r = (#[trigger] twists[i]).reverse.index_spec() as int;
            &&& r < twists.len()
            &&& twists[r].reverse.index_spec() == i
            &&& twists[r].axis == twists[i].axis
        }
    &&& forall|i: int|
        0 <= i < twists.len() ==> ((#[trigger] twists[i]).opposite matches Some(o) ==> {
            &&& o.index_spec() < twists.len()
            &&& twists[o.index_spec() as int].opposite matches Some(back)
            &&& back.index_spec() == i
        })
}

/// Reversing a twist twice gives the twist back.
pub proof fn lemma_reverse_is_involution(twists: Seq<TwistInfo>, t: Twist)
    requires
        is_twist_system(twists),
        t.index_spec() < twists.len(),
    ensures
        reverse_of(twists, t).index_spec() < twists.len(),
        reverse_of(twists, reverse_of(twists, t)) == t,
{
    let i = t.index_spec() as int;
    let r = twists[i].reverse.index_spec() as int;
    assert(twists[r].reverse.index_spec() == i);
    Twist::index_is_injective(twists[r].reverse, t);
}

/// The opposite of the opposite of a twist is the twist.
pub proof fn lemma_opposite_is_involution(twists: Seq<TwistInfo>, t: Twist)
    requires
        is_twist_system(twists),
        t.index_spec() < twists.len(),
        opposite_of(twists, t) is Some,
    ensures
        opposite_of(twists, t)->0.index_spec() < twists.len(),
        opposite_of(twists, opposite_of(twists, t)->0) == Some(t),
{
    let i = t.index_spec() as int;
    let o = twists[i].opposite->0;
    let back = twists[o.index_spec() as int].opposite->0;
    Twist::index_is_injective(back, t);
}

/// The twists of a puzzle that is being described.
pub struct TwistSystemBuilder {
    /// The twists, by ID.
    pub twists: PerTwist<TwistBuilder>,
    /// Names that the user gave to twists.
    pub names: NamingScheme<Twist>,
    /// Order in which the user wants the twists listed.
    pub ordering: CustomOrdering<Twist>,
}

impl TwistSystemBuilder {
    /// Every twist has an ID and a place in the order, and no two twists
    /// have the same key.
    pub open spec fn wf(&self) -> bool {
        &&& self.twists.wf()
        &&& self.ordering.wf()
        &&& self.ordering@.len() == self.twists@.len()
        &&& keys_are_unique(self.twists@)
    }

    /// Twist system without twists.
    pub fn new() -> (r: Self)
        ensures
            r.wf(),
            r.twists@ == Seq::<TwistBuilder>::empty(),
            r.names.names() == Seq::<Option<Seq<char>>>::empty(),
            r.names.display_names() == Seq::<Option<Seq<char>>>::empty(),
    {
        TwistSystemBuilder {
            twists: PerTwist::new(),
            names: NamingScheme::new(),
            ordering: CustomOrdering::new(),
        }
    }

    /// Number of twists.
    pub fn len(&self) -> (r: usize)
        ensures
            r == self.twists@.len(),
    {
        self.twists.len()
    }

    /// The twist that has the key, if there is one.
    pub fn get(&self, key: TwistKey) -> (r: Option<Twist>)
        requires
            self.wf(),
        ensures
            r is Some <==> has_key(self.twists@, key),
            r matches Some(twist) ==> twist.index_spec() == index_of_key(self.twists@, key)
                && self.twists.has(twist),
    {
        let n = self.twists.len();
        let mut i: usize = 0;
        while i < n
            invariant
                self.wf(),
                n == self.twists@.len(),
                i <= n,
                forall|j: int| 0 <= j < i ==> (#[trigger] self.twists@[j]).key() != key,
            decreases n - i,
        {
            let twist = self.twists.at_index(i);
            if twist.axis == key.axis && twist.transform == key.transform {
                proof {
                    lemma_index_of_key(self.twists@, key, i as int);
                }
                return match Twist::try_from_usize(i) {
                    Ok(id) => Some(id),
                    Err(_) => unreached(),
                };
            }
            i += 1;
        }
        None
    }

    /// The twist with the key of `data`: the one that is there, unchanged,
    /// or else a new one, last in the order, that holds `data`. Fails, and
    /// changes nothing, when a twist would have to be added and no ID is
    /// left.
    pub fn add(&mut self, data: TwistBuilder) -> (r: Result<Twist, IndexOverflow>)
        requires
            old(self).wf(),
        ensures
            final(self).wf(),
            final(self).names == old(self).names,
            r is Ok <==> has_key(old(self).twists@, data.key()) || old(self).twists@.len()
                <= Twist::max_index_spec(),
            r matches Ok(twist) ==> if has_key(old(self).twists@, data.key()) {
                &&& twist.index_spec() == index_of_key(old(self).twists@, data.key())
                &&& final(self).twists@ == old(self).twists@
                &&& final(self).ordering@ == old(self).ordering@
            } else {
                &&& twist.index_spec() == old(self).twists@.len()
                &&& final(self).twists@ == old(self).twists@.push(data)
                &&& final(self).ordering@ == old(self).ordering@.push(twist.index_spec() as usize)
            },
            r matches Err(e) ==> e.max_index == Twist::max_index_spec() && final(self).twists@
                == old(self).twists@ && final(self).ordering@ == old(self).ordering@,
    {
        match self.get(data.key_of()) {
            Some(twist) => Ok(twist),
            None => {
                let ghost before = self.twists@;
                match self.twists.push(data) {
                    Ok(twist) => {
                        let placed = self.ordering.add(twist);
                        assert(placed is Ok);
                        assert forall|i: int, j: int|
                            0 <= i < j < self.twists@.len() implies (#[trigger] self.twists@[i]).key()
                            != (#[trigger] self.twists@[j]).key() by {
                            if j == before.len() {
                                assert(before[i].key() != data.key());
                            }
                        }
                        Ok(twist)
                    },
                    Err(e) => Err(e),
                }
            },
        }
    }
}

/// What finishing a twist system gives.
pub struct TwistSystemBuild {
    /// One warning for each name that the user assigned to more than one
    /// twist.
    pub warnings: Vec<DuplicateName>,
    /// The finished twists by ID, or the reason why there are none.
    pub twists: Result<PerTwist<TwistInfo>, TwistError>,
}

/// Whether `info` is twist `i` of the list `twists` with its relations
/// resolved.
pub open spec fn is_finished_twist(info: TwistInfo, twists: Seq<TwistBuilder>, i: int) -> bool {
    &&& info.qtm == twists[i].qtm
    &&& info.axis == twists[i].axis
    &&& info.transform == twists[i].transform
    &&& info.reverse.index_spec() == index_of_key(twists, twists[i].reverse_key())
    &&& match twists[i].opposite {
        None => info.opposite is None,
        Some(key) => info.opposite matches Some(o) && o.index_spec() == index_of_key(twists, key),
    }
}

impl TwistSystemBuilder {
    /// Whether the unused candidates suffice to name the twists that have no
    /// name.
    pub open spec fn names_suffice(&self, autonames: Seq<String>) -> bool {
        unnamed_count(self.names.names(), self.ordering.ids()) <= unused_names(
            self.names.names(),
            strings_view(autonames),
        ).len()
    }

    /// Adds, for each twist whose reverse is missing, the reverse: a twist
    /// on the same axis, with the same weight and with the two
    /// transformations exchanged. The new twists come last, by ID and in the
    /// order. Fails when the twist IDs do not suffice; the twists that were
    /// there are then still there.
    pub fn close_under_reverse(&mut self) -> (r: Result<(), IndexOverflow>)
        requires
            old(self).wf(),
        ensures
            final(self).wf(),
            final(self).names == old(self).names,
            final(self).twists@.len() >= old(self).twists@.len(),
            final(self).twists@.take(old(self).twists@.len() as int) == old(self).twists@,
            final(self).ordering@.take(old(self).twists@.len() as int) == old(self).ordering@,
            forall|j: int|
                old(self).twists@.len() <= j < final(self).twists@.len() ==> final(self).ordering@[j] == j,
            r is Ok <==> closed_under_reverse(old(self).twists@, old(self).twists@.len()).len()
                <= Twist::max_index_spec() + 1,
            r is Ok ==> final(self).twists@ == closed_under_reverse(
                old(self).twists@,
                old(self).twists@.len(),
            ),
            r matches Err(e) ==> e.max_index == Twist::max_index_spec() && exists|k: nat|
                k < old(self).twists@.len() && final(self).twists@ == #[trigger] closed_under_reverse(
                    old(self).twists@,
                    k,
                ) && closed_under_reverse(old(self).twists@, k + 1).len() > Twist::max_index_spec()
                    + 1,
    {
        let n = self.twists.len();
        let ghost given = self.twists@;
        let ghost given_order = self.ordering@;
        let mut k: usize = 0;
        proof {
            assert(self.twists@.take(n as int) =~= given);
            assert(self.ordering@.take(n as int) =~= given_order);
        }
        while k < n
            invariant
                self.wf(),
                self.names == old(self).names,
                given == old(self).twists@,
                given_order == old(self).ordering@,
                n == given.len(),
                keys_are_unique(given),
                k <= n,
                self.twists@ == closed_under_reverse(given, k as nat),
                self.ordering@.take(n as int) == given_order,
                forall|j: int| n <= j < self.twists@.len() ==> self.ordering@[j] == j,
            decreases n - k,
        {
            proof {
                lemma_closed_under_reverse(given, k as nat);
                lemma_closed_under_reverse(given, (k + 1) as nat);
                lemma_closed_under_reverse(given, n as nat);
                assert(self.twists@[k as int] == self.twists@.take(n as int)[k as int]);
            }
            let twist = *self.twists.at_index(k);
            if self.get(twist.reverse_key_of()).is_none() {
                let reverse = TwistBuilder {
                    axis: twist.axis,
                    transform: twist.inverse_transform,
                    inverse_transform: twist.transform,
                    qtm: twist.qtm,
                    opposite: None,
                };
                let ghost before_order = self.ordering@;
                match self.add(reverse) {
                    Ok(_) => {
                        assert(self.ordering@.take(n as int) =~= before_order.take(n as int));
                    },
                    Err(e) => {
                        proof {
                            lemma_closed_monotonic(given, (k + 1) as nat, n as nat);
                            assert(self.twists@ == closed_under_reverse(given, k as nat));
                        }
                        return Err(e);
                    },
                }
            }
            k += 1;
        }
        proof {
            lemma_closed_under_reverse(given, n as nat);
        }
        Ok(())
    }
}

impl TwistSystemBuilder {
    /// Resolves the reverse and the opposite of twist `i`, or says what is
    /// wrong with them.
    fn resolve_relations(&self, axes: &PerAxis<AxisInfo>, i: usize) -> (r: Result<
        (Twist, Option<Twist>),
        TwistError,
    >)
        requires
            self.wf(),
            i < self.twists@.len(),
            forall|j: int|
                0 <= j < self.twists@.len() ==> has_key(
                    self.twists@,
                    (#[trigger] self.twists@[j]).reverse_key(),
                ),
            forall|j: int|
                0 <= j < self.twists@.len() ==> !axis_is_missing(
                    self.twists@,
                    layer_counts(axes@),
                    j,
                ),
        ensures
            r is Ok <==> relation_fault(self.twists@, layer_counts(axes@), i as int) is None,
            r matches Err(e) ==> relation_fault(self.twists@, layer_counts(axes@), i as int)
                == Some(e),
            r matches Ok(resolved) ==> {
                &&& resolved.0.index_spec() == index_of_key(
                    self.twists@,
                    self.twists@[i as int].reverse_key(),
                )
                &&& match self.twists@[i as int].opposite {
                    None => resolved.1 is None,
                    Some(key) => resolved.1 matches Some(o) && o.index_spec() == index_of_key(
                        self.twists@,
                        key,
                    ),
                }
            },
    {
        let ghost closed = self.twists@;
        let ghost counts = layer_counts(axes@);
        let twist = *self.twists.at_index(i);
        let id: Twist = match Twist::try_from_usize(i) {
            Ok(id) => id,
            Err(_) => unreached(),
        };
        proof {
            reveal(relation_fault);
            assert(closed[i as int] == twist);
            assert(has_key(closed, closed[i as int].reverse_key()));
            assert(!axis_is_missing(closed, counts, i as int));
            assert(id == Twist(i as u32));
        }
        let reverse: Twist = match self.get(twist.reverse_key_of()) {
            Some(reverse) => reverse,
            None => unreached(),
        };
        if self.twists.at(reverse).inverse_transform != twist.transform {
            return Err(TwistError::InconsistentReverse { twist: id });
        }
        match twist.opposite {
            None => Ok((reverse, None)),
            Some(key) => {
                let found: Twist = match self.get(key) {
                    Some(found) => found,
                    None => {
                        return Err(TwistError::MissingOpposite { twist: id });
                    },
                };
                let other = *self.twists.at(found);
                let mutual = match other.opposite {
                    Some(back) => back.axis == twist.axis && back.transform == twist.transform,
                    None => false,
                };
                assert(mutual == (other.opposite == Some(twist.key())));
                if !mutual {
                    return Err(TwistError::OppositeNotMutual { twist: id });
                }
                assert(!axis_is_missing(closed, counts, found.index_spec() as int));
                let other_count = axes.at(other.axis).layers.len();
                let count = axes.at(twist.axis).layers.len();
                assert(other_count == counts[other.axis.index_spec() as int]);
                assert(count == counts[twist.axis.index_spec() as int]);
                if other_count != count {
                    return Err(TwistError::OppositeLayerMismatch { twist: id });
                }
                Ok((reverse, Some(found)))
            },
        }
    }
}

/// Finished twists without a fault fit the axes: each turns around an axis
/// that exists, and a twist and its opposite turn around axes with equally
/// many layers.
pub proof fn lemma_built_twists_fit_axes(
    closed: Seq<TwistBuilder>,
    counts: Seq<nat>,
    twists: Seq<TwistInfo>,
    i: int,
)
    requires
        is_faultless(closed, counts),
        twists.len() == closed.len(),
        forall|j: int| 0 <= j < closed.len() ==> is_finished_twist(#[trigger] twists[j], closed, j),
        is_twist_system(twists),
        0 <= i < twists.len(),
    ensures
        twists[i].axis.index_spec() < counts.len(),
        twists[i].opposite matches Some(o) ==> o.index_spec() < twists.len()
            && counts[twists[o.index_spec() as int].axis.index_spec() as int]
            == counts[twists[i].axis.index_spec() as int],
{
    reveal(relation_fault);
    assert(!axis_is_missing(closed, counts, i));
    assert(relation_fault(closed, counts, i) is None);
    assert(is_finished_twist(twists[i], closed, i));
    if twists[i].opposite is Some {
        let o = twists[i].opposite->0.index_spec() as int;
        assert(is_finished_twist(twists[o], closed, o));
    }
}

/// A fault in the relations of a twist is one of four kinds.
pub proof fn lemma_fault_kinds(twists: Seq<TwistBuilder>, counts: Seq<nat>, i: int)
    ensures
        relation_fault(twists, counts, i) matches Some(e) ==> {
            ||| e is InconsistentReverse
            ||| e is MissingOpposite
            ||| e is OppositeNotMutual
            ||| e is OppositeLayerMismatch
        },
{
    reveal(relation_fault);
}

impl TwistSystemBuilder {
    /// Resolves the relations of every twist, in the order of the IDs, and
    /// gives each twist its name from `table`; stops at the first twist
    /// whose relations are at fault.
    fn finish_twists(&self, axes: &PerAxis<AxisInfo>, table: &Vec<(String, String)>) -> (r: Result<
        PerTwist<TwistInfo>,
        TwistError,
    >)
        requires
            self.wf(),
            table@.len() == self.twists@.len(),
            forall|j: int|
                0 <= j < self.twists@.len() ==> has_key(
                    self.twists@,
                    (#[trigger] self.twists@[j]).reverse_key(),
                ),
            forall|j: int|
                0 <= j < self.twists@.len() ==> !axis_is_missing(
                    self.twists@,
                    layer_counts(axes@),
                    j,
                ),
        ensures
            r is Ok <==> forall|i: int|
                0 <= i < self.twists@.len() ==> relation_fault(
                    self.twists@,
                    layer_counts(axes@),
                    i,
                ) is None,
            r matches Ok(twists) ==> {
                &&& twists.wf()
                &&& twists@.len() == self.twists@.len()
                &&& forall|j: int|
                    0 <= j < twists@.len() ==> is_finished_twist(
                        #[trigger] twists@[j],
                        self.twists@,
                        j,
                    )
                &&& forall|j: int|
                    0 <= j < twists@.len() ==> (#[trigger] twists@[j]).name@ == table@[j].0@
            },
            r matches Err(e) ==> exists|i: int|
                0 <= i < self.twists@.len() && #[trigger] relation_fault(
                    self.twists@,
                    layer_counts(axes@),
                    i,
                ) == Some(e) && forall|j: int|
                    0 <= j < i ==> relation_fault(self.twists@, layer_counts(axes@), j) is None,
    {
        let ghost closed = self.twists@;
        let ghost counts = layer_counts(axes@);
        let n = self.twists.len();
        let mut twists: PerTwist<TwistInfo> = PerTwist::new();
        let mut i: usize = 0;
        while i < n
            invariant
                self.wf(),
                n == closed.len(),
                closed == self.twists@,
                counts == layer_counts(axes@),
                n <= Twist::max_index_spec() + 1,
                i <= n,
                table@.len() == n,
                twists.wf(),
                twists@.len() == i,
                forall|j: int| 0 <= j < n ==> !axis_is_missing(closed, counts, j),
                forall|j: int|
                    0 <= j < n ==> has_key(closed, (#[trigger] closed[j]).reverse_key()),
                forall|j: int| 0 <= j < i ==> relation_fault(closed, counts, j) is None,
                forall|j: int| 0 <= j < i ==> is_finished_twist(#[trigger] twists@[j], closed, j),
                forall|j: int| 0 <= j < i ==> (#[trigger] twists@[j]).name@ == table@[j].0@,
            decreases n - i,
        {
            let twist = *self.twists.at_index(i);
            let (reverse, opposite) = match self.resolve_relations(axes, i) {
                Ok(resolved) => resolved,
                Err(e) => {
                    assert(relation_fault(closed, counts, i as int) == Some(e));
                    return Err(e);
                },
            };
            let info = TwistInfo {
                name: table[i].0.clone(),
                qtm: twist.qtm,
                axis: twist.axis,
                transform: twist.transform,
                opposite,
                reverse,
            };
            assert(is_finished_twist(info, closed, i as int));
            let ghost before = twists@;
            let pushed = twists.push(info);
            assert(pushed is Ok);
            assert(forall|j: int| 0 <= j < i ==> twists@[j] == before[j]);
            i += 1;
        }
        Ok(twists)
    }
}

/// Whether the relations of all twists are in order: every twist turns
/// around an axis that exists, and no twist has a fault in its relations.
pub open spec fn is_faultless(twists: Seq<TwistBuilder>, counts: Seq<nat>) -> bool {
    &&& forall|i: int| 0 <= i < twists.len() ==> !axis_is_missing(twists, counts, i)
    &&& forall|i: int| 0 <= i < twists.len() ==> relation_fault(twists, counts, i) is None
}

impl TwistSystemBuilder {
    /// Whether `twists` are the finished twists of this system, which is
    /// closed under reversal: each is the twist of its builder with its
    /// relations resolved and with its resolved name, and together they
    /// are the twists of a finished puzzle.
    pub open spec fn is_built(&self, autonames: Seq<String>, twists: Seq<TwistInfo>) -> bool {
        &&& twists.len() == self.twists@.len()
        &&& is_twist_system(twists)
        &&& forall|i: int|
            0 <= i < twists.len() ==> is_finished_twist(#[trigger] twists[i], self.twists@, i)
        &&& forall|p: int|
            0 <= p < twists.len() ==> (#[trigger] twists[self.ordering@[p] as int]).name@
                == resolved_name(
                self.names.names(),
                self.ordering.ids(),
                strings_view(autonames),
                p,
            )
    }

    /// Whether `e` is the reason why the system cannot be finished, where
    /// `closed` are its twists with the missing reverses: the twist IDs do
    /// not suffice for them; or the candidates do not suffice to name every
    /// twist; or `e` names the first twist, by ID, whose axis does not
    /// exist; or every axis exists, and `e` is the fault of the first twist
    /// whose relations are at fault.
    pub open spec fn build_fails_with(
        &self,
        closed: Seq<TwistBuilder>,
        counts: Seq<nat>,
        autonames: Seq<String>,
        e: TwistError,
    ) -> bool {
        match e {
            TwistError::TooManyTwists(_) => closed.len() > Twist::max_index_spec() + 1,
            TwistError::RanOutOfNames(e) => {
                &&& closed.len() <= Twist::max_index_spec() + 1
                &&& !self.names_suffice(autonames)
                &&& runs_out_at(
                    self.names.names(),
                    self.ordering.ids(),
                    strings_view(autonames),
                    e.position as nat,
                )
            },
            TwistError::NoSuchAxis { twist } => {
                &&& closed.len() <= Twist::max_index_spec() + 1
                &&& self.names_suffice(autonames)
                &&& twist.index_spec() < closed.len()
                &&& axis_is_missing(closed, counts, twist.index_spec() as int)
                &&& forall|j: int| 0 <= j < twist.index_spec() ==> !axis_is_missing(closed, counts, j)
            },
            _ => {
                &&& closed.len() <= Twist::max_index_spec() + 1
                &&& self.names_suffice(autonames)
                &&& forall|i: int| 0 <= i < closed.len() ==> !axis_is_missing(closed, counts, i)
                &&& exists|i: int|
                    0 <= i < closed.len() && #[trigger] relation_fault(closed, counts, i)
                        == Some(e) && forall|j: int|
                        0 <= j < i ==> relation_fault(closed, counts, j) is None
            },
        }
    }
}

impl TwistSystemBuilder {
    /// Finishes the twists: adds missing reverses, resolves the names, and
    /// resolves and checks the relations between the twists.
    ///
    /// Names that the user assigned twice are reported and kept. The build
    /// fails when the twist IDs do not suffice for the reverses, when the
    /// candidates do not suffice to name every twist, at the first twist, by
    /// ID, whose axis does not exist, and else at the first twist whose
    /// reverse or opposite does not lead back to it; the error names the
    /// twist. On success every twist has exactly one reverse, reversing
    /// twice gives the twist back, and so does taking the opposite twice.
    pub fn build(&mut self, axes: &PerAxis<AxisInfo>, autonames: &Vec<String>) -> (r:
        TwistSystemBuild)
        requires
            old(self).wf(),
        ensures
            final(self).wf(),
            final(self).names == old(self).names,
            warning_names(r.warnings@) == duplicates(old(self).names.names()) + duplicates(
                old(self).names.display_names(),
            ),
            r.twists is Ok <==> {
                let closed = closed_under_reverse(old(self).twists@, old(self).twists@.len());
                &&& closed.len() <= Twist::max_index_spec() + 1
                &&& final(self).names_suffice(autonames@)
                &&& is_faultless(closed, layer_counts(axes@))
            },
            r.twists matches Ok(twists) ==> {
                &&& final(self).twists@ == closed_under_reverse(
                    old(self).twists@,
                    old(self).twists@.len(),
                )
                &&& twists.wf()
                &&& final(self).is_built(autonames@, twists@)
            },
            !(r.twists matches Err(TwistError::TooManyTwists(_))) ==> final(self).twists@
                == closed_under_reverse(old(self).twists@, old(self).twists@.len()),
            r.twists matches Err(TwistError::TooManyTwists(_)) ==> exists|k: nat|
                k < old(self).twists@.len() && final(self).twists@ == #[trigger] closed_under_reverse(
                    old(self).twists@,
                    k,
                ) && closed_under_reverse(old(self).twists@, k + 1).len() > Twist::max_index_spec()
                    + 1,
            r.twists matches Err(e) ==> final(self).build_fails_with(
                closed_under_reverse(old(self).twists@, old(self).twists@.len()),
                layer_counts(axes@),
                autonames@,
                e,
            ),
    {
        let ghost given = self.twists@;
        proof {
            lemma_closed_under_reverse(given, given.len());
        }
        match self.close_under_reverse() {
            Ok(()) => {},
            Err(e) => {
                return TwistSystemBuild {
                    warnings: self.names.duplicate_warnings(),
                    twists: Err(TwistError::TooManyTwists(e)),
                };
            },
        }
        let ghost closed = self.twists@;
        proof {
            assert forall|i: int| 0 <= i < closed.len() implies has_key(
                closed,
                (#[trigger] closed[i]).reverse_key(),
            ) by {
                if i < given.len() {
                    assert(closed[i] == closed.take(given.len() as int)[i]);
                    assert(closed[i] == given[i]);
                }
            }
        }
        let resolved = resolve_names(&self.names, &self.ordering, autonames);
        let warnings = resolved.warnings;
        let table = match resolved.names {
            Ok(table) => table,
            Err(e) => {
                return TwistSystemBuild { warnings, twists: Err(TwistError::RanOutOfNames(e)) };
            },
        };
        let n = self.twists.len();
        let axis_count = axes.len();
        let mut i: usize = 0;
        while i < n
            invariant
                self.wf(),
                self.names == old(self).names,
                n == closed.len(),
                closed == self.twists@,
                closed == closed_under_reverse(old(self).twists@, old(self).twists@.len()),
                axis_count == axes@.len(),
                n <= Twist::max_index_spec() + 1,
                i <= n,
                self.names_suffice(autonames@),
                warning_names(warnings@) == duplicates(self.names.names()) + duplicates(
                    self.names.display_names(),
                ),
                forall|j: int| 0 <= j < i ==> !axis_is_missing(closed, layer_counts(axes@), j),
            decreases n - i,
        {
            if self.twists.at_index(i).axis.to_usize() >= axis_count {
                let twist: Twist = match Twist::try_from_usize(i) {
                    Ok(twist) => twist,
                    Err(_) => unreached(),
                };
                assert(axis_is_missing(closed, layer_counts(axes@), i as int));
                return TwistSystemBuild { warnings, twists: Err(TwistError::NoSuchAxis { twist }) };
            }
            i += 1;
        }
        let twists = match self.finish_twists(axes, &table) {
            Ok(twists) => twists,
            Err(e) => {
                proof {
                    let i = choose|i: int|
                        0 <= i < closed.len() && #[trigger] relation_fault(
                            closed,
                            layer_counts(axes@),
                            i,
                        ) == Some(e) && forall|j: int|
                            0 <= j < i ==> relation_fault(closed, layer_counts(axes@), j) is None;
                    lemma_fault_kinds(closed, layer_counts(axes@), i);
                }
                return TwistSystemBuild { warnings, twists: Err(e) };
            },
        };
        proof {
            lemma_finished_twists(closed, layer_counts(axes@), twists@);
            assert forall|p: int| 0 <= p < n implies (
            #[trigger] twists@[self.ordering@[p] as int]).name@ == resolved_name(
                self.names.names(),
                self.ordering.ids(),
                strings_view(autonames@),
                p,
            ) by {
                assert(self.ordering@[p] < n);
                assert(table@[self.ordering@[p] as int].0@ == resolved_name(
                    self.names.names(),
                    self.ordering.ids(),
                    strings_view(autonames@),
                    p,
                ));
            }
        }
        TwistSystemBuild { warnings, twists: Ok(twists) }
    }
}

/// Twists whose relations were resolved without a fault are those of a
/// finished puzzle.
pub proof fn lemma_finished_twists(
    closed: Seq<TwistBuilder>,
    counts: Seq<nat>,
    twists: Seq<TwistInfo>,
)
    requires
        keys_are_unique(closed),
        closed.len() <= Twist::max_index_spec() + 1,
        twists.len() == closed.len(),
        forall|i: int| 0 <= i < closed.len() ==> has_key(closed, (#[trigger] closed[i]).reverse_key()),
        forall|i: int| 0 <= i < closed.len() ==> relation_fault(closed, counts, i) is None,
        forall|i: int| 0 <= i < closed.len() ==> is_finished_twist(#[trigger] twists[i], closed, i),
    ensures
        is_twist_system(twists),
{
    reveal(relation_fault);
    assert forall|i: int| 0 <= i < twists.len() implies {
        let r = (#[trigger] twists[i]).reverse.index_spec() as int;
        &&& r < twists.len()
        &&& twists[r].reverse.index_spec() == i
        &&& twists[r].axis == twists[i].axis
    } by {
        let r = index_of_key(closed, closed[i].reverse_key());
        assert(has_key(closed, closed[i].reverse_key()));
        assert(relation_fault(closed, counts, i) is None);
        assert(is_finished_twist(twists[r], closed, r));
        assert(closed[r].reverse_key() == closed[i].key());
        lemma_index_of_key(closed, closed[i].key(), i);
    }
    assert forall|i: int| 0 <= i < twists.len() implies ((#[trigger] twists[i]).opposite matches Some(
        o,
    ) ==> {
        &&& o.index_spec() < twists.len()
        &&& twists[o.index_spec() as int].opposite matches Some(back)
        &&& back.index_spec() == i
    }) by {
        assert(relation_fault(closed, counts, i) is None);
        assert(is_finished_twist(twists[i], closed, i));
        if closed[i].opposite is Some {
            let key = closed[i].opposite->0;
            let o = index_of_key(closed, key);
            assert(has_key(closed, key));
            assert(is_finished_twist(twists[o], closed, o));
            lemma_index_of_key(closed, closed[i].key(), i);
        }
    }
}

/// Closing under the reverses of more twists never gives a shorter list.
pub proof fn lemma_closed_monotonic(twists: Seq<TwistBuilder>, k: nat, l: nat)
    requires
        k <= l,
    ensures
        closed_under_reverse(twists, k).len() <= closed_under_reverse(twists, l).len(),
    decreases l - k,
{
    if k < l {
        lemma_closed_monotonic(twists, k, (l - 1) as nat);
    }
}

impl TwistBuilder {
    /// Key of the twist.
    pub fn key_of(&self) -> (r: TwistKey)
        ensures
            r == self.key(),
    {
        TwistKey { axis: self.axis, transform: self.transform }
    }

    /// Key of the twist that undoes this one.
    pub fn reverse_key_of(&self) -> (r: TwistKey)
        ensures
            r == self.reverse_key(),
    {
        TwistKey { axis: self.axis, transform: self.inverse_transform }
    }
}

} // verus!
