//! The base shape of a puzzle, before any cut: the facets that bound it.
//!
//! The geometry engine holds the surfaces; the builder holds which of them
//! bound the shape and under which facet ID, so that what the engine reports
//! about a region can be mapped back onto facets.

use crate::collections::PerFacet;
use crate::color_system::opt_color_view;
use crate::colors::DefaultColor;
use crate::ids::{Facet, IndexNewtype, IndexOverflow};
use crate::info::{FacetInfo, ManifoldRef};
use crate::naming::{
    duplicates,
    resolve_names,
    resolved_name,
    runs_out_at,
    strings_view,
    unnamed_count,
    unused_names,
    warning_names,
    DuplicateName,
    NamingScheme,
    RanOutOfNames,
};
use crate::ordering::CustomOrdering;
use vstd::prelude::*;

verus! {

/// A facet that is being described.
pub struct FacetBuilder {
    /// Surface on which the facet lies.
    pub manifold: ManifoldRef,
    /// Default color of the facet, as a reference into the global palette.
    pub default_color: Option<DefaultColor>,
}

/// Whether some facet of the list lies on the surface.
pub open spec fn has_manifold(facets: Seq<FacetBuilder>, manifold: ManifoldRef) -> bool {
    exists|i: int| 0 <= i < facets.len() && (#[trigger] facets[i]).manifold == manifold
}

/// Whether no two facets of the list lie on the same surface.
pub open spec fn manifolds_are_unique(facets: Seq<FacetBuilder>) -> bool {
    forall|i: int, j: int|
        0 <= i < j < facets.len() ==> (#[trigger] facets[i]).manifold != (
        #[trigger] facets[j]).manifold
}

/// Index of a facet of the list that lies on the surface.
pub open spec fn index_of_manifold(facets: Seq<FacetBuilder>, manifold: ManifoldRef) -> int
    recommends
        has_manifold(facets, manifold),
{
    choose|i: int| 0 <= i < facets.len() && (#[trigger] facets[i]).manifold == manifold
}

/// With unique surfaces, the facet on a surface is the only one.
pub proof fn lemma_index_of_manifold(facets: Seq<FacetBuilder>, manifold: ManifoldRef, i: int)
    requires
        manifolds_are_unique(facets),
        0 <= i < facets.len(),
        facets[i].manifold == manifold,
    ensures
        has_manifold(facets, manifold),
        index_of_manifold(facets, manifold) == i,
{
    let j = index_of_manifold(facets, manifold);
    assert(0 <= j < facets.len() && facets[j].manifold == manifold);
    if j < i {
        assert(facets[j].manifold != facets[i].manifold);
    } else if i < j {
        assert(facets[i].manifold != facets[j].manifold);
    }
}

/// The base shape of a puzzle that is being described.
pub struct ShapeBuilder {
    /// Number of dimensions of the space that the shape lives in.
    pub ndim: u8,
    /// The facets, by ID.
    pub facets: PerFacet<FacetBuilder>,
    /// Names that the user gave to facets.
    pub names: NamingScheme<Facet>,
    /// Order in which the user wants the facets listed.
    pub ordering: CustomOrdering<Facet>,
}

/// What finishing a shape gives.
pub struct ShapeBuild {
    /// One warning for each name that the user assigned to more than one
    /// facet.
    pub warnings: Vec<DuplicateName>,
    /// The finished facets by ID, or the reason why there are none.
    pub facets: Result<PerFacet<FacetInfo>, RanOutOfNames>,
}

impl ShapeBuilder {
    /// Every facet has an ID and a place in the order, and no two facets
    /// lie on the same surface.
    pub open spec fn wf(&self) -> bool {
        &&& self.facets.wf()
        &&& self.ordering.wf()
        &&& self.ordering@.len() == self.facets@.len()
        &&& manifolds_are_unique(self.facets@)
    }

    /// Whether the unused candidates suffice to name the facets that have no
    /// name.
    pub open spec fn names_suffice(&self, autonames: Seq<String>) -> bool {
        unnamed_count(self.names.names(), self.ordering.ids()) <= unused_names(
            self.names.names(),
            strings_view(autonames),
        ).len()
    }

    /// Whether `facets` are the finished facets of this shape: each with
    /// the default color of its builder and with its resolved name.
    pub open spec fn is_built(&self, autonames: Seq<String>, facets: Seq<FacetInfo>) -> bool {
        &&& facets.len() == self.facets@.len()
        &&& forall|f: int|
            0 <= f < facets.len() ==> opt_color_view((#[trigger] facets[f]).default_color)
                == opt_color_view(self.facets@[f].default_color)
        &&& forall|p: int|
            0 <= p < facets.len() ==> (#[trigger] facets[self.ordering@[p] as int]).name@
                == resolved_name(
                self.names.names(),
                self.ordering.ids(),
                strings_view(autonames),
                p,
            )
    }

    /// Shape without facets.
    pub fn new(ndim: u8) -> (r: Self)
        ensures
            r.wf(),
            r.ndim == ndim,
            r.facets@ == Seq::<FacetBuilder>::empty(),
            r.names.names() == Seq::<Option<Seq<char>>>::empty(),
            r.names.display_names() == Seq::<Option<Seq<char>>>::empty(),
    {
        ShapeBuilder {
            ndim,
            facets: PerFacet::new(),
            names: NamingScheme::new(),
            ordering: CustomOrdering::new(),
        }
    }

    /// Number of facets.
    pub fn len(&self) -> (r: usize)
        ensures
            r == self.facets@.len(),
    {
        self.facets.len()
    }

    /// The facet that lies on a surface, if the surface bounds the shape. A
    /// surface that does not is one that a cut made.
    pub fn facet_of(&self, manifold: ManifoldRef) -> (r: Option<Facet>)
        requires
            self.wf(),
        ensures
            r is Some <==> has_manifold(self.facets@, manifold),
            r matches Some(facet) ==> facet.index_spec() == index_of_manifold(
                self.facets@,
                manifold,
            ) && self.facets.has(facet) && !(facet == Facet(u16::MAX)),
    {
        let n = self.facets.len();
        let mut i: usize = 0;
        assert(Facet::max_index_spec() == 65534);
        while i < n
            invariant
                self.wf(),
                n == self.facets@.len(),
                i <= n,
                forall|j: int| 0 <= j < i ==> (#[trigger] self.facets@[j]).manifold != manifold,
            decreases n - i,
        {
            if self.facets.at_index(i).manifold == manifold {
                proof {
                    lemma_index_of_manifold(self.facets@, manifold, i as int);
                    assert(Facet::max_index_spec() == 65534);
                }
                return match Facet::try_from_usize(i) {
                    Ok(facet) => Some(facet),
                    Err(_) => unreached(),
                };
            }
            i += 1;
        }
        None
    }

    /// The facet on a surface: the one that is there, unchanged, or else a
    /// new one, last in the order, with the default color given. Fails, and
    /// changes nothing, when a facet would have to be added and no ID is
    /// left; the reserved ID that stands for "no facet" is never handed out.
    pub fn add_facet(&mut self, manifold: ManifoldRef, default_color: Option<DefaultColor>) -> (r:
        Result<Facet, IndexOverflow>)
        requires
            old(self).wf(),
        ensures
            final(self).wf(),
            final(self).names == old(self).names,
            final(self).ndim == old(self).ndim,
            r is Ok <==> has_manifold(old(self).facets@, manifold) || old(self).facets@.len()
                <= Facet::max_index_spec(),
            r matches Ok(facet) ==> !(facet == Facet(u16::MAX)) && if has_manifold(
                old(self).facets@,
                manifold,
            ) {
                &&& facet.index_spec() == index_of_manifold(old(self).facets@, manifold)
                &&& final(self).facets@ == old(self).facets@
                &&& final(self).ordering@ == old(self).ordering@
            } else {
                &&& facet.index_spec() == old(self).facets@.len()
                &&& final(self).facets@ == old(self).facets@.push(
                    FacetBuilder { manifold, default_color },
                )
                &&& final(self).ordering@ == old(self).ordering@.push(facet.index_spec() as usize)
            },
            r matches Err(e) ==> e.max_index == Facet::max_index_spec() && final(self).facets@
                == old(self).facets@ && final(self).ordering@ == old(self).ordering@,
    {
        match self.facet_of(manifold) {
            Some(facet) => Ok(facet),
            None => {
                let ghost before = self.facets@;
                assert(Facet::max_index_spec() == 65534);
                match self.facets.push(FacetBuilder { manifold, default_color }) {
                    Ok(facet) => {
                        let placed = self.ordering.add(facet);
                        assert(placed is Ok);
                        assert forall|i: int, j: int|
                            0 <= i < j < self.facets@.len() implies (
                        #[trigger] self.facets@[i]).manifold != (
                        #[trigger] self.facets@[j]).manifold by {
                            if j == before.len() {
                                assert(before[i].manifold != manifold);
                            }
                        }
                        Ok(facet)
                    },
                    Err(e) => Err(e),
                }
            },
        }
    }

    /// Finishes the facets: resolves their names and keeps their default
    /// colors as references.
    ///
    /// Names that the user assigned twice are reported and kept. The build
    /// fails only when the candidates do not suffice to name every facet.
    pub fn build(&self, autonames: &Vec<String>) -> (r: ShapeBuild)
        requires
            self.wf(),
        ensures
            warning_names(r.warnings@) == duplicates(self.names.names()) + duplicates(
                self.names.display_names(),
            ),
            r.facets is Ok <==> self.names_suffice(autonames@),
            r.facets matches Ok(facets) ==> facets.wf() && self.is_built(autonames@, facets@),
            r.facets matches Err(e) ==> runs_out_at(
                self.names.names(),
                self.ordering.ids(),
                strings_view(autonames@),
                e.position as nat,
            ),
    {
        let resolved = resolve_names(&self.names, &self.ordering, autonames);
        let warnings = resolved.warnings;
        let table = match resolved.names {
            Ok(table) => table,
            Err(e) => {
                return ShapeBuild { warnings, facets: Err(e) };
            },
        };
        let n = self.facets.len();
        let mut facets: PerFacet<FacetInfo> = PerFacet::new();
        let mut f: usize = 0;
        while f < n
            invariant
                self.wf(),
                n == self.facets@.len(),
                f <= n,
                table@.len() == n,
                facets.wf(),
                facets@.len() == f,
                forall|b: int|
                    0 <= b < f ==> opt_color_view((#[trigger] facets@[b]).default_color)
                        == opt_color_view(self.facets@[b].default_color) && facets@[b].name@
                        == table@[b].0@,
            decreases n - f,
        {
            let default_color = match &self.facets.at_index(f).default_color {
                Some(color) => Some(color.clone()),
                None => None,
            };
            let info = FacetInfo { name: table[f].0.clone(), default_color };
            let ghost before = facets@;
            let pushed = facets.push(info);
            assert(pushed is Ok);
            assert(forall|b: int| 0 <= b < f ==> facets@[b] == before[b]);
            f += 1;
        }
        assert forall|p: int| 0 <= p < n implies (#[trigger] facets@[self.ordering@[p] as int]).name@
            == resolved_name(
            self.names.names(),
            self.ordering.ids(),
            strings_view(autonames@),
            p,
        ) by {
            assert(self.ordering@[p] < n);
            assert(table@[self.ordering@[p] as int].0@ == resolved_name(
                self.names.names(),
                self.ordering.ids(),
                strings_view(autonames@),
                p,
            ));
        }
        ShapeBuild { warnings, facets: Ok(facets) }
    }
}

} // verus!
