//! Twist axes and their layers, while a puzzle is being described.
//!
//! The layers of an axis are stacked along the axis, innermost first. Each
//! layer lies between a bottom boundary and, except for the outermost layer,
//! a top boundary, and the top of one layer is the bottom of the next. A
//! stack with a gap or an overlap is never turned into a finished axis: the
//! build names the axis and the layer at which the stack breaks.

use crate::collections::{PerAxis, PerLayer};
use crate::ids::{Axis, IndexNewtype, IndexOutOfRange, IndexOverflow, Layer};
use crate::info::{AxisInfo, LayerInfo, ManifoldRef};
use crate::naming::{
    duplicates,
    resolve_names,
    resolved_name,
    runs_out_at,
    strings_view,
    unnamed_count,
    unused_names,
    warning_names,
    DuplicateName,
    NamingScheme,
    RanOutOfNames,
};
use crate::ordering::CustomOrdering;
use vstd::prelude::*;

verus! {

/// Largest number of layers that one axis can have: a layer count fits in
/// eight bits.
pub const MAX_LAYER_COUNT: usize = 255;

/// Whether the layers tile the depth of their axis: each layer but the last
/// has a top, and it is the bottom of the next layer.
pub open spec fn layers_are_continuous(layers: Seq<LayerInfo>) -> bool {
    forall|i: int|
        0 <= i < layers.len() - 1 ==> (#[trigger] layers[i]).top == Some(layers[i + 1].bottom)
}

/// Whether the stack breaks between layer `i` and the next one.
pub open spec fn breaks_after(layers: Seq<LayerInfo>, i: int) -> bool {
    0 <= i < layers.len() - 1 && layers[i].top != Some(layers[i + 1].bottom)
}

/// Whether the layers can be those of a finished axis: there is at least
/// one, and they tile the depth of the axis.
pub open spec fn is_layer_stack(layers: Seq<LayerInfo>) -> bool {
    layers.len() > 0 && layers_are_continuous(layers)
}

/// In a proper stack of layers the top of each layer but the last is the
/// bottom of the next.
pub proof fn lemma_layer_top_is_next_bottom(layers: Seq<LayerInfo>, i: int)
    requires
        is_layer_stack(layers),
        0 <= i < layers.len() - 1,
    ensures
        layers[i].top == Some(layers[i + 1].bottom),
{
}

/// A layer of an axis that is being described.
#[derive(Debug, Clone, Copy, PartialEq, Eq, Structural)]
pub struct AxisLayerBuilder {
    /// Manifold that bounds the bottom of the layer.
    pub bottom: ManifoldRef,
    /// Manifold that bounds the top of the layer, if any.
    pub top: Option<ManifoldRef>,
}

impl AxisLayerBuilder {
    /// The layer as it stands in a finished axis.
    pub open spec fn info(self) -> LayerInfo {
        LayerInfo { bottom: self.bottom, top: self.top }
    }
}

/// An axis that is being described.
pub struct AxisBuilder {
    /// Layers of the axis, from the innermost to the outermost.
    pub layers: PerLayer<AxisLayerBuilder>,
}

impl AxisBuilder {
    /// The axis has no more layers than an axis can have.
    pub open spec fn wf(&self) -> bool {
        self.layers@.len() <= MAX_LAYER_COUNT
    }

    /// The layers as they would stand in a finished axis.
    pub open spec fn layer_infos(&self) -> Seq<LayerInfo> {
        self.layers@.map_values(|layer: AxisLayerBuilder| layer.info())
    }

    /// Axis without layers.
    pub fn new() -> (r: Self)
        ensures
            r.layers@ == Seq::<AxisLayerBuilder>::empty(),
            r.wf(),
    {
        AxisBuilder { layers: PerLayer::new() }
    }

    /// Number of layers.
    pub fn layer_count(&self) -> (r: usize)
        ensures
            r == self.layers@.len(),
    {
        self.layers.len()
    }

    /// Adds a layer outside all present ones and returns its ID. Fails, and
    /// changes nothing, when the axis already has as many layers as an axis
    /// can have.
    pub fn push_layer(&mut self, bottom: ManifoldRef, top: Option<ManifoldRef>) -> (r: Result<
        Layer,
        IndexOverflow,
    >)
        requires
            old(self).wf(),
        ensures
            final(self).wf(),
            r is Ok <==> old(self).layers@.len() < MAX_LAYER_COUNT,
            r matches Ok(layer) ==> layer.index_spec() == old(self).layers@.len() && final(self).layers@ == old(self).layers@.push(AxisLayerBuilder { bottom, top }),
            r matches Err(e) ==> e.max_index == MAX_LAYER_COUNT - 1 && final(self).layers@ == old(self).layers@,
    {
        if self.layers.len() >= MAX_LAYER_COUNT {
            return Err(IndexOverflow { max_index: MAX_LAYER_COUNT - 1 });
        }
        self.layers.push(AxisLayerBuilder { bottom, top })
    }

    /// Where the stack of layers breaks first, if it does: the layer whose
    /// top is not the bottom of the next.
    pub fn first_break(&self) -> (r: Option<Layer>)
        requires
            self.wf(),
        ensures
            r is None <==> layers_are_continuous(self.layer_infos()),
            r matches Some(layer) ==> breaks_after(self.layer_infos(), layer.index_spec() as int)
                && forall|j: int|
                0 <= j < layer.index_spec() ==> !breaks_after(self.layer_infos(), j),
    {
        let n = self.layers.len();
        let ghost infos = self.layer_infos();
        let mut i: usize = 0;
        while i + 1 < n
            invariant
                n == self.layers@.len(),
                n <= MAX_LAYER_COUNT,
                i <= n,
                infos == self.layer_infos(),
                forall|j: int| 0 <= j < i ==> !breaks_after(infos, j),
            decreases n - i,
        {
            let below = self.layers.at_index(i);
            let above = self.layers.at_index(i + 1);
            let joined = match below.top {
                Some(top) => top == above.bottom,
                None => false,
            };
            if !joined {
                assert(breaks_after(infos, i as int));
                return match Layer::try_from_usize(i) {
                    Ok(layer) => Some(layer),
                    Err(_) => unreached(),
                };
            }
            i += 1;
        }
        assert forall|j: int| 0 <= j < infos.len() - 1 implies (#[trigger] infos[j]).top == Some(
            infos[j + 1].bottom,
        ) by {
            assert(!breaks_after(infos, j));
        }
        None
    }
}

/// Why an axis system cannot be changed as asked, or cannot be finished.
#[derive(Debug, Clone, Copy, PartialEq, Eq, Structural)]
pub enum AxisError {
    /// The axis does not exist.
    NoSuchAxis(IndexOutOfRange),
    /// The axis already has as many layers as an axis can have.
    TooManyLayers {
        /// The axis that is full.
        axis: Axis,
    },
    /// The axis has no layer.
    EmptyAxis {
        /// The axis without layers.
        axis: Axis,
    },
    /// The layers of the axis leave a gap or overlap: the top of a layer is
    /// missing or is not the bottom of the next layer.
    LayerBoundaryMismatch {
        /// The axis whose stack of layers breaks.
        axis: Axis,
        /// The layer below the break.
        layer: Layer,
    },
    /// There are fewer unused candidate names than axes without a name.
    RanOutOfNames(RanOutOfNames),
}

/// The twist axes of a puzzle that is being described.
pub struct AxisSystemBuilder {
    /// The axes, by ID.
    pub axes: PerAxis<AxisBuilder>,
    /// Names that the user gave to axes.
    pub names: NamingScheme<Axis>,
    /// Order in which the user wants the axes listed.
    pub ordering: CustomOrdering<Axis>,
}

/// What finishing an axis system gives.
pub struct AxisSystemBuild {
    /// One warning for each name that the user assigned to more than one
    /// axis.
    pub warnings: Vec<DuplicateName>,
    /// The finished axes by ID, or the reason why there are none.
    pub axes: Result<PerAxis<AxisInfo>, AxisError>,
}

/// The layers of a builder as they stand in a finished axis.
fn finished_layers(axis: &AxisBuilder) -> (r: PerLayer<LayerInfo>)
    requires
        axis.wf(),
    ensures
        r@ == axis.layer_infos(),
        r.wf(),
{
    let mut layers: PerLayer<LayerInfo> = PerLayer::new();
    let n = axis.layers.len();
    let mut i: usize = 0;
    assert(Layer::max_index_spec() == 255);
    while i < n
        invariant
            n == axis.layers@.len(),
            n <= MAX_LAYER_COUNT,
            i <= n,
            layers.wf(),
            layers@ =~= axis.layer_infos().take(i as int),
        decreases n - i,
    {
        let layer = axis.layers.at_index(i);
        assert(Layer::max_index_spec() == 255);
        let pushed = layers.push(LayerInfo { bottom: layer.bottom, top: layer.top });
        assert(pushed is Ok);
        i += 1;
    }
    assert(axis.layer_infos().take(n as int) =~= axis.layer_infos());
    layers
}

impl AxisSystemBuilder {
    /// Every axis has an ID and a place in the order, and no axis has more
    /// layers than an axis can have.
    pub open spec fn wf(&self) -> bool {
        &&& self.axes.wf()
        &&& self.ordering.wf()
        &&& self.ordering@.len() == self.axes@.len()
        &&& forall|a: int| 0 <= a < self.axes@.len() ==> (#[trigger] self.axes@[a]).wf()
    }

    /// Whether the unused candidates suffice to name the axes that have no
    /// name.
    pub open spec fn names_suffice(&self, autonames: Seq<String>) -> bool {
        unnamed_count(self.names.names(), self.ordering.ids()) <= unused_names(
            self.names.names(),
            strings_view(autonames),
        ).len()
    }

    /// Whether every axis before `a` has a proper stack of layers.
    pub open spec fn stacks_hold_before(&self, a: int) -> bool {
        forall|b: int| 0 <= b < a ==> is_layer_stack((#[trigger] self.axes@[b]).layer_infos())
    }

    /// Whether `axes` are the finished axes of this system: each with the
    /// layers of its builder, which form a proper stack, and with its
    /// resolved name.
    pub open spec fn is_built(&self, autonames: Seq<String>, axes: Seq<AxisInfo>) -> bool {
        &&& axes.len() == self.axes@.len()
        &&& forall|a: int|
            0 <= a < axes.len() ==> (#[trigger] axes[a]).layers@ == self.axes@[a].layer_infos()
                && is_layer_stack(axes[a].layers@)
        &&& forall|p: int|
            0 <= p < axes.len() ==> (#[trigger] axes[self.ordering@[p] as int]).name@
                == resolved_name(
                self.names.names(),
                self.ordering.ids(),
                strings_view(autonames),
                p,
            )
    }

    /// Whether `e` is the reason why the system cannot be finished: the
    /// candidates do not suffice to name every axis; or they do, and `e`
    /// names the first axis, by ID, that has no layer or whose stack of
    /// layers breaks, with the layer below the first break.
    pub open spec fn build_fails_with(&self, autonames: Seq<String>, e: AxisError) -> bool {
        match e {
            AxisError::RanOutOfNames(e) => !self.names_suffice(autonames) && runs_out_at(
                self.names.names(),
                self.ordering.ids(),
                strings_view(autonames),
                e.position as nat,
            ),
            AxisError::EmptyAxis { axis } => {
                &&& self.names_suffice(autonames)
                &&& self.axes.has(axis)
                &&& self.stacks_hold_before(axis.index_spec() as int)
                &&& self.axes.value(axis).layers@.len() == 0
            },
            AxisError::LayerBoundaryMismatch { axis, layer } => {
                &&& self.names_suffice(autonames)
                &&& self.axes.has(axis)
                &&& self.stacks_hold_before(axis.index_spec() as int)
                &&& breaks_after(self.axes.value(axis).layer_infos(), layer.index_spec() as int)
                &&& forall|j: int|
                    0 <= j < layer.index_spec() ==> !breaks_after(
                        self.axes.value(axis).layer_infos(),
                        j,
                    )
            },
            _ => false,
        }
    }

    /// Axis system without axes.
    pub fn new() -> (r: Self)
        ensures
            r.wf(),
            r.axes@ == Seq::<AxisBuilder>::empty(),
            r.names.names() == Seq::<Option<Seq<char>>>::empty(),
            r.names.display_names() == Seq::<Option<Seq<char>>>::empty(),
    {
        AxisSystemBuilder {
            axes: PerAxis::new(),
            names: NamingScheme::new(),
            ordering: CustomOrdering::new(),
        }
    }

    /// Number of axes.
    pub fn len(&self) -> (r: usize)
        ensures
            r == self.axes@.len(),
    {
        self.axes.len()
    }

    /// Adds an axis without layers, last in the order, and returns its ID.
    /// Fails, and changes nothing, when no ID is left.
    pub fn add(&mut self) -> (r: Result<Axis, IndexOverflow>)
        requires
            old(self).wf(),
        ensures
            final(self).wf(),
            final(self).names == old(self).names,
            r is Ok <==> old(self).axes@.len() <= Axis::max_index_spec(),
            r matches Ok(axis) ==> {
                &&& axis.index_spec() == old(self).axes@.len()
                &&& final(self).axes@.len() == old(self).axes@.len() + 1
                &&& final(self).axes@.take(old(self).axes@.len() as int) == old(self).axes@
                &&& final(self).axes@.last().layers@ == Seq::<AxisLayerBuilder>::empty()
                &&& final(self).ordering@ == old(self).ordering@.push(axis.index_spec() as usize)
            },
            r matches Err(e) ==> e.max_index == Axis::max_index_spec() && final(self).axes@ == old(self).axes@ && final(self).ordering@ == old(self).ordering@,
    {
        let ghost before = self.axes@;
        match self.axes.push(AxisBuilder::new()) {
            Ok(axis) => {
                let placed = self.ordering.add(axis);
                assert(placed is Ok);
                assert(self.axes@.take(before.len() as int) =~= before);
                assert forall|a: int| 0 <= a < self.axes@.len() implies (
                #[trigger] self.axes@[a]).wf() by {
                    if a < before.len() {
                        assert(self.axes@[a] == before[a]);
                    }
                }
                Ok(axis)
            },
            Err(e) => Err(e),
        }
    }

    /// Adds a layer to an axis, outside all layers that the axis has, and
    /// returns the layer's ID. Fails, and changes nothing, when the axis does
    /// not exist or is full.
    pub fn push_layer(&mut self, axis: Axis, bottom: ManifoldRef, top: Option<ManifoldRef>) -> (r:
        Result<Layer, AxisError>)
        requires
            old(self).wf(),
        ensures
            final(self).wf(),
            final(self).names == old(self).names,
            final(self).ordering == old(self).ordering,
            final(self).axes@.len() == old(self).axes@.len(),
            r is Ok <==> old(self).axes.has(axis) && old(self).axes.value(axis).layers@.len()
                < MAX_LAYER_COUNT,
            r matches Ok(layer) ==> {
                &&& layer.index_spec() == old(self).axes.value(axis).layers@.len()
                &&& final(self).axes.value(axis).layers@ == old(self).axes.value(axis).layers@.push(
                    AxisLayerBuilder { bottom, top },
                )
                &&& forall|b: int|
                    0 <= b < old(self).axes@.len() && b != axis.index_spec() ==> final(self).axes@[b] == old(self).axes@[b]
            },
            r matches Err(e) ==> final(self).axes@ == old(self).axes@ && e == (if old(self).axes.has(axis) {
                AxisError::TooManyLayers { axis }
            } else {
                AxisError::NoSuchAxis(
                    IndexOutOfRange {
                        index: axis.index_spec() as usize,
                        len: old(self).axes@.len() as usize,
                    },
                )
            }),
    {
        if !self.axes.contains_key(axis) {
            return Err(
                AxisError::NoSuchAxis(
                    IndexOutOfRange { index: axis.to_usize(), len: self.axes.len() },
                ),
            );
        }
        let ghost before = self.axes@;
        assert(before[axis.index_spec() as int].wf());
        if self.axes.at(axis).layer_count() >= MAX_LAYER_COUNT {
            return Err(AxisError::TooManyLayers { axis });
        }
        let builder = self.axes.at_mut(axis);
        let pushed = builder.push_layer(bottom, top);
        assert forall|a: int| 0 <= a < self.axes@.len() implies (#[trigger] self.axes@[a]).wf() by {
            if a != axis.index_spec() {
                assert(self.axes@[a] == before[a]);
            }
        }
        match pushed {
            Ok(layer) => Ok(layer),
            Err(_) => unreached(),
        }
    }

    /// Finishes the axes: resolves their names and checks their layers.
    ///
    /// Names that the user assigned twice are reported and kept. The build
    /// fails when the candidates do not suffice to name every axis, and
    /// else at the first axis, by ID, that has no layer or whose stack of
    /// layers breaks; the error names the axis and the layer below the
    /// first break. On success every finished axis has at least one layer,
    /// and the top of each layer but the last is the bottom of the next.
    pub fn build(&self, autonames: &Vec<String>) -> (r: AxisSystemBuild)
        requires
            self.wf(),
        ensures
            warning_names(r.warnings@) == duplicates(self.names.names()) + duplicates(
                self.names.display_names(),
            ),
            r.axes is Ok <==> self.names_suffice(autonames@) && self.stacks_hold_before(
                self.axes@.len() as int,
            ),
            r.axes matches Ok(axes) ==> axes.wf() && self.is_built(autonames@, axes@),
            r.axes matches Err(e) ==> self.build_fails_with(autonames@, e),
    {
        let resolved = resolve_names(&self.names, &self.ordering, autonames);
        let warnings = resolved.warnings;
        let table = match resolved.names {
            Ok(table) => table,
            Err(e) => {
                return AxisSystemBuild { warnings, axes: Err(AxisError::RanOutOfNames(e)) };
            },
        };
        let n = self.axes.len();
        let mut axes: PerAxis<AxisInfo> = PerAxis::new();
        let mut a: usize = 0;
        while a < n
            invariant
                self.wf(),
                n == self.axes@.len(),
                a <= n,
                table@.len() == n,
                axes.wf(),
                axes@.len() == a,
                self.stacks_hold_before(a as int),
                self.names_suffice(autonames@),
                warning_names(warnings@) == duplicates(self.names.names()) + duplicates(
                    self.names.display_names(),
                ),
                forall|p: int|
                    0 <= p < n ==> (#[trigger] table@[self.ordering@[p] as int]).0@
                        == resolved_name(
                        self.names.names(),
                        self.ordering.ids(),
                        strings_view(autonames@),
                        p,
                    ),
                forall|b: int|
                    0 <= b < a ==> (#[trigger] axes@[b]).layers@ == self.axes@[b].layer_infos()
                        && axes@[b].name@ == table@[b].0@,
            decreases n - a,
        {
            let builder = self.axes.at_index(a);
            let axis: Axis = match Axis::try_from_usize(a) {
                Ok(axis) => axis,
                Err(_) => unreached(),
            };
            assert(self.axes@[a as int].wf());
            if builder.layer_count() == 0 {
                return AxisSystemBuild { warnings, axes: Err(AxisError::EmptyAxis { axis }) };
            }
            match builder.first_break() {
                Some(layer) => {
                    return AxisSystemBuild {
                        warnings,
                        axes: Err(AxisError::LayerBoundaryMismatch { axis, layer }),
                    };
                },
                None => {},
            }
            let info = AxisInfo { name: table[a].0.clone(), layers: finished_layers(builder) };
            let ghost before = axes@;
            let pushed = axes.push(info);
            assert(pushed is Ok);
            assert(forall|b: int| 0 <= b < a ==> axes@[b] == before[b]);
            a += 1;
        }
        assert forall|p: int| 0 <= p < axes@.len() implies (
        #[trigger] axes@[self.ordering@[p] as int]).name@ == resolved_name(
            self.names.names(),
            self.ordering.ids(),
            strings_view(autonames@),
            p,
        ) by {
            assert(self.ordering@[p] < n);
            assert(table@[self.ordering@[p] as int].0@ == resolved_name(
                self.names.names(),
                self.ordering.ids(),
                strings_view(autonames@),
                p,
            ));
        }
        AxisSystemBuild { warnings, axes: Ok(axes) }
    }
}

} // verus!
