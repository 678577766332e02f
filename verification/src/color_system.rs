//! The colors of a puzzle, while it is being described and once it is
//! finished.
//!
//! A color has a name and may have a default color: a reference that the
//! global palette resolves. The color of internal stickers is no color of
//! the system: it has no ID below the reserved one, no name and no default
//! color, and so it is part of no color scheme.

use crate::collections::PerColor;
use crate::colors::{DefaultColor, DefaultColorView};
use crate::ids::{Color, IndexNewtype, IndexOutOfRange, IndexOverflow};
use crate::info::ColorInfo;
use crate::naming::{
    duplicates,
    resolve_names,
    resolved_name,
    runs_out_at,
    strings_view,
    unnamed_count,
    unused_names,
    warning_names,
    DuplicateName,
    NamingScheme,
    RanOutOfNames,
};
use crate::ordering::CustomOrdering;
use vstd::prelude::*;

verus! {

/// What an optional default color is in contracts.
pub open spec fn opt_color_view(color: Option<DefaultColor>) -> Option<DefaultColorView> {
    match color {
        Some(color) => Some(color@),
        None => None,
    }
}

/// The finished colors of a puzzle.
#[derive(Debug)]
pub struct ColorSystem {
    /// Identifier of the color system.
    pub id: String,
    /// Human-friendly name of the color system.
    pub name: String,
    /// The colors, by ID.
    pub list: PerColor<ColorInfo>,
}

impl ColorSystem {
    /// The names of the colors, by ID.
    pub open spec fn color_names(&self) -> Seq<Seq<char>> {
        self.list@.map_values(|color: ColorInfo| color.name@)
    }
}

/// A color that is being described.
pub struct ColorBuilder {
    /// Default color, as a reference into the global palette.
    pub default_color: Option<DefaultColor>,
}

/// The colors of a puzzle that is being described.
pub struct ColorSystemBuilder {
    /// Identifier of the color system.
    pub id: String,
    /// Human-friendly name of the color system.
    pub name: String,
    /// The colors, by ID.
    pub colors: PerColor<ColorBuilder>,
    /// Names that the user gave to colors.
    pub names: NamingScheme<Color>,
    /// Order in which the user wants the colors listed.
    pub ordering: CustomOrdering<Color>,
}

/// What finishing a color system gives.
pub struct ColorSystemBuild {
    /// One warning for each name that the user assigned to more than one
    /// color.
    pub warnings: Vec<DuplicateName>,
    /// The finished colors, or the reason why there are none.
    pub colors: Result<ColorSystem, RanOutOfNames>,
}

/// A copy of an optional default color.
fn clone_default_color(color: &Option<DefaultColor>) -> (r: Option<DefaultColor>)
    ensures
        opt_color_view(r) == opt_color_view(*color),
{
    match color {
        Some(color) => Some(color.clone()),
        None => None,
    }
}

impl ColorSystemBuilder {
    /// Every color has an ID and a place in the order.
    pub open spec fn wf(&self) -> bool {
        &&& self.colors.wf()
        &&& self.ordering.wf()
        &&& self.ordering@.len() == self.colors@.len()
    }

    /// Whether the unused candidates suffice to name the colors that have no
    /// name.
    pub open spec fn names_suffice(&self, autonames: Seq<String>) -> bool {
        unnamed_count(self.names.names(), self.ordering.ids()) <= unused_names(
            self.names.names(),
            strings_view(autonames),
        ).len()
    }

    /// Whether `system` is the finished color system of this builder: it
    /// has the builder's identifier and name, and each color has the
    /// default color of its builder and its resolved name.
    pub open spec fn is_built(&self, autonames: Seq<String>, system: ColorSystem) -> bool {
        &&& system.id@ == self.id@
        &&& system.name@ == self.name@
        &&& system.list@.len() == self.colors@.len()
        &&& forall|c: int|
            0 <= c < system.list@.len() ==> opt_color_view(
                (#[trigger] system.list@[c]).default_color,
            ) == opt_color_view(self.colors@[c].default_color)
        &&& forall|p: int|
            0 <= p < system.list@.len() ==> (#[trigger] system.list@[self.ordering@[p] as int]).name@
                == resolved_name(
                self.names.names(),
                self.ordering.ids(),
                strings_view(autonames),
                p,
            )
    }

    /// Color system without colors.
    pub fn new(id: String, name: String) -> (r: Self)
        ensures
            r.wf(),
            r.id == id,
            r.name == name,
            r.colors@ == Seq::<ColorBuilder>::empty(),
            r.names.names() == Seq::<Option<Seq<char>>>::empty(),
            r.names.display_names() == Seq::<Option<Seq<char>>>::empty(),
    {
        ColorSystemBuilder {
            id,
            name,
            colors: PerColor::new(),
            names: NamingScheme::new(),
            ordering: CustomOrdering::new(),
        }
    }

    /// Number of colors.
    pub fn len(&self) -> (r: usize)
        ensures
            r == self.colors@.len(),
    {
        self.colors.len()
    }

    /// Adds a color without a default color, last in the order, and returns
    /// its ID. Fails, and changes nothing, when no ID is left; the reserved
    /// ID of the internal color is never handed out.
    pub fn add(&mut self) -> (r: Result<Color, IndexOverflow>)
        requires
            old(self).wf(),
        ensures
            final(self).wf(),
            final(self).names == old(self).names,
            final(self).id == old(self).id,
            final(self).name == old(self).name,
            r is Ok <==> old(self).colors@.len() <= Color::max_index_spec(),
            r matches Ok(color) ==> {
                &&& color.index_spec() == old(self).colors@.len()
                &&& color != Color(u16::MAX)
                &&& final(self).colors@.len() == old(self).colors@.len() + 1
                &&& final(self).colors@.take(old(self).colors@.len() as int) == old(self).colors@
                &&& final(self).colors@.last().default_color is None
                &&& final(self).ordering@ == old(self).ordering@.push(color.index_spec() as usize)
            },
            r matches Err(e) ==> e.max_index == Color::max_index_spec() && final(self).colors@
                == old(self).colors@ && final(self).ordering@ == old(self).ordering@,
    {
        let ghost before = self.colors@;
        assert(Color::max_index_spec() == 65534);
        match self.colors.push(ColorBuilder { default_color: None }) {
            Ok(color) => {
                let placed = self.ordering.add(color);
                assert(placed is Ok);
                assert(self.colors@.take(before.len() as int) =~= before);
                Ok(color)
            },
            Err(e) => Err(e),
        }
    }

    /// Sets or clears the default color of a color. Fails, and changes
    /// nothing, when the color does not exist.
    pub fn set_default_color(&mut self, color: Color, default_color: Option<DefaultColor>) -> (r:
        Result<(), IndexOutOfRange>)
        requires
            old(self).wf(),
        ensures
            final(self).wf(),
            final(self).names == old(self).names,
            final(self).ordering == old(self).ordering,
            final(self).id == old(self).id,
            final(self).name == old(self).name,
            r is Ok <==> old(self).colors.has(color),
            r is Ok ==> final(self).colors@ == old(self).colors@.update(
                color.index_spec() as int,
                ColorBuilder { default_color },
            ),
            r matches Err(e) ==> e.index == color.index_spec() && e.len == old(self).colors@.len()
                && final(self).colors@ == old(self).colors@,
    {
        self.colors.set(color, ColorBuilder { default_color })
    }

    /// Finishes the colors: resolves their names and keeps their default
    /// colors as references.
    ///
    /// Names that the user assigned twice are reported and kept. The build
    /// fails only when the candidates do not suffice to name every color.
    pub fn build(&self, autonames: &Vec<String>) -> (r: ColorSystemBuild)
        requires
            self.wf(),
        ensures
            warning_names(r.warnings@) == duplicates(self.names.names()) + duplicates(
                self.names.display_names(),
            ),
            r.colors is Ok <==> self.names_suffice(autonames@),
            r.colors matches Ok(system) ==> system.list.wf() && self.is_built(autonames@, system),
            r.colors matches Err(e) ==> runs_out_at(
                self.names.names(),
                self.ordering.ids(),
                strings_view(autonames@),
                e.position as nat,
            ),
    {
        let resolved = resolve_names(&self.names, &self.ordering, autonames);
        let warnings = resolved.warnings;
        let table = match resolved.names {
            Ok(table) => table,
            Err(e) => {
                return ColorSystemBuild { warnings, colors: Err(e) };
            },
        };
        let n = self.colors.len();
        let mut list: PerColor<ColorInfo> = PerColor::new();
        let mut c: usize = 0;
        while c < n
            invariant
                self.wf(),
                n == self.colors@.len(),
                c <= n,
                table@.len() == n,
                list.wf(),
                list@.len() == c,
                forall|b: int|
                    0 <= b < c ==> opt_color_view((#[trigger] list@[b]).default_color)
                        == opt_color_view(self.colors@[b].default_color) && list@[b].name@
                        == table@[b].0@,
            decreases n - c,
        {
            let info = ColorInfo {
                name: table[c].0.clone(),
                default_color: clone_default_color(&self.colors.at_index(c).default_color),
            };
            let ghost before = list@;
            let pushed = list.push(info);
            assert(pushed is Ok);
            assert(forall|b: int| 0 <= b < c ==> list@[b] == before[b]);
            c += 1;
        }
        assert forall|p: int| 0 <= p < n implies (#[trigger] list@[self.ordering@[p] as int]).name@
            == resolved_name(
            self.names.names(),
            self.ordering.ids(),
            strings_view(autonames@),
            p,
        ) by {
            assert(self.ordering@[p] < n);
            assert(table@[self.ordering@[p] as int].0@ == resolved_name(
                self.names.names(),
                self.ordering.ids(),
                strings_view(autonames@),
                p,
            ));
        }
        let system = ColorSystem { id: self.id.clone(), name: self.name.clone(), list };
        ColorSystemBuild { warnings, colors: Ok(system) }
    }
}

} // verus!
