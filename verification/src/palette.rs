//! The global color palette, and the color schemes that are held against
//! it.

use crate::color_system::{opt_color_view, ColorSystem};
use crate::colors::{DefaultColor, DefaultColorGradient, DefaultColorView, Rgb};
use crate::info::ColorInfo;
use crate::naming::strings_view;
use indexmap::IndexMap;
use vstd::prelude::*;

verus! {

/// The insertion-ordered hash map of `indexmap`.
#[verifier::external_type_specification]
#[verifier::external_body]
#[verifier::reject_recursive_types(K)]
#[verifier::reject_recursive_types(V)]
#[verifier::reject_recursive_types(S)]
pub struct ExIndexMap<K, V, S>(IndexMap<K, V, S>);

/// Assignment of a default color to each color of a color system, by the
/// color's name and in the order of the color system's colors.
pub type ColorScheme = IndexMap<String, DefaultColor>;

/// The entries of a color scheme in the map's order: each key with the view
/// of its value.
pub uninterp spec fn scheme_entries(scheme: ColorScheme) -> Seq<(Seq<char>, DefaultColorView)>;

/// The entries of a map of named colors, in the map's order.
pub uninterp spec fn color_entries(colors: IndexMap<String, Rgb>) -> Seq<(Seq<char>, Rgb)>;

/// The entries of a map of named color sets, in the map's order.
pub uninterp spec fn color_set_entries(sets: IndexMap<String, Vec<Rgb>>) -> Seq<
    (Seq<char>, Seq<Rgb>),
>;

/// Whether some entry has the key.
pub open spec fn has_entry<V>(entries: Seq<(Seq<char>, V)>, key: Seq<char>) -> bool {
    exists|i: int| 0 <= i < entries.len() && (#[trigger] entries[i]).0 == key
}

/// Whether entry `i` is the first that has the key.
pub open spec fn is_first_entry<V>(entries: Seq<(Seq<char>, V)>, key: Seq<char>, i: int) -> bool {
    &&& 0 <= i < entries.len()
    &&& entries[i].0 == key
    &&& forall|j: int| 0 <= j < i ==> (#[trigger] entries[j]).0 != key
}

/// Position of the first entry that has the key.
pub open spec fn entry_index<V>(entries: Seq<(Seq<char>, V)>, key: Seq<char>) -> int
    recommends
        has_entry(entries, key),
{
    choose|i: int| is_first_entry(entries, key, i)
}

/// Value of the first entry that has the key, if there is one.
pub open spec fn lookup<V>(entries: Seq<(Seq<char>, V)>, key: Seq<char>) -> Option<V> {
    if has_entry(entries, key) {
        Some(entries[entry_index(entries, key)].1)
    } else {
        None
    }
}

/// The keys of the entries, in order.
pub open spec fn entry_keys<V>(entries: Seq<(Seq<char>, V)>) -> Seq<Seq<char>> {
    entries.map_values(|entry: (Seq<char>, V)| entry.0)
}

/// The entries after a key has been given a value: the entry that has the
/// key keeps its place and gets the value, or else a new entry comes last.
pub open spec fn inserted<V>(entries: Seq<(Seq<char>, V)>, key: Seq<char>, value: V) -> Seq<
    (Seq<char>, V),
> {
    if has_entry(entries, key) {
        entries.update(entry_index(entries, key), (key, value))
    } else {
        entries.push((key, value))
    }
}

/// The entries after the entry with the key has been removed by letting the
/// last entry take its place.
pub open spec fn swap_removed<V>(entries: Seq<(Seq<char>, V)>, key: Seq<char>) -> Seq<
    (Seq<char>, V),
> {
    if has_entry(entries, key) {
        entries.update(entry_index(entries, key), entries.last()).drop_last()
    } else {
        entries
    }
}

/// Among the entries with a key there is a first.
pub proof fn lemma_entry_index<V>(entries: Seq<(Seq<char>, V)>, key: Seq<char>)
    requires
        has_entry(entries, key),
    ensures
        is_first_entry(entries, key, entry_index(entries, key)),
{
    let i = choose|i: int| 0 <= i < entries.len() && (#[trigger] entries[i]).0 == key;
    lemma_first_entry_before(entries, key, i);
}

proof fn lemma_first_entry_before<V>(entries: Seq<(Seq<char>, V)>, key: Seq<char>, i: int)
    requires
        0 <= i < entries.len(),
        entries[i].0 == key,
    ensures
        exists|j: int| is_first_entry(entries, key, j),
    decreases i,
{
    if exists|j: int| 0 <= j < i && (#[trigger] entries[j]).0 == key {
        let j = choose|j: int| 0 <= j < i && (#[trigger] entries[j]).0 == key;
        lemma_first_entry_before(entries, key, j);
    } else {
        assert(is_first_entry(entries, key, i));
    }
}

/// `IndexMap::new`: a map without entries.
#[verifier::external_body]
fn scheme_new() -> (r: ColorScheme)
    ensures
        scheme_entries(r) == Seq::<(Seq<char>, DefaultColorView)>::empty(),
{
    IndexMap::new()
}

/// `IndexMap::len`: the number of entries.
#[verifier::external_body]
fn scheme_len(scheme: &ColorScheme) -> (r: usize)
    ensures
        r == scheme_entries(*scheme).len(),
{
    scheme.len()
}

/// `IndexMap::get_index`: the entry at a position of the map's order, here
/// as a copy of the key and of the value.
#[verifier::external_body]
fn scheme_get_index(scheme: &ColorScheme, index: usize) -> (r: (String, DefaultColor))
    requires
        index < scheme_entries(*scheme).len(),
    ensures
        r.0@ == scheme_entries(*scheme)[index as int].0,
        r.1@ == scheme_entries(*scheme)[index as int].1,
{
    let (key, value) = scheme.get_index(index).unwrap();
    (key.clone(), value.clone())
}

/// `IndexMap::insert`: where the key is present, its entry keeps its place
/// and gets the new value, and the old value is returned; where it is not,
/// the entry comes last in the order and nothing is returned.
#[verifier::external_body]
fn scheme_insert(scheme: &mut ColorScheme, key: String, value: DefaultColor) -> (r: Option<
    DefaultColor,
>)
    ensures
        scheme_entries(*final(scheme)) == inserted(scheme_entries(*old(scheme)), key@, value@),
        r is Some <==> has_entry(scheme_entries(*old(scheme)), key@),
        r matches Some(previous) ==> Some(previous@) == lookup(
            scheme_entries(*old(scheme)),
            key@,
        ),
{
    scheme.insert(key, value)
}

/// `IndexMap::swap_remove_entry`: removes the entry with the key and
/// returns it; the last entry of the order takes its place. Without such an
/// entry the map stays as it is and nothing is returned.
#[verifier::external_body]
fn scheme_swap_remove_entry(scheme: &mut ColorScheme, key: &String) -> (r: Option<
    (String, DefaultColor),
>)
    ensures
        scheme_entries(*final(scheme)) == swap_removed(scheme_entries(*old(scheme)), key@),
        r is Some <==> has_entry(scheme_entries(*old(scheme)), key@),
        r matches Some(entry) ==> entry.0@ == key@ && Some(entry.1@) == lookup(
            scheme_entries(*old(scheme)),
            key@,
        ),
{
    scheme.swap_remove_entry(key)
}

/// `IndexMut<usize>` of `IndexMap`: replaces the value of the entry at a
/// position of the map's order; the key and the order stay.
#[verifier::external_body]
fn scheme_set_value(scheme: &mut ColorScheme, index: usize, value: DefaultColor)
    requires
        index < scheme_entries(*old(scheme)).len(),
    ensures
        scheme_entries(*final(scheme)) == scheme_entries(*old(scheme)).update(
            index as int,
            (scheme_entries(*old(scheme))[index as int].0, value@),
        ),
{
    scheme[index] = value;
}

/// `IndexMap::get` on a map of named colors: the color of that name.
#[verifier::external_body]
fn color_get(colors: &IndexMap<String, Rgb>, name: &String) -> (r: Option<Rgb>)
    ensures
        r == lookup(color_entries(*colors), name@),
{
    colors.get(name).copied()
}

/// `IndexMap::get` on a map of named color sets: the set of that name.
#[verifier::external_body]
fn color_set_get<'a>(sets: &'a IndexMap<String, Vec<Rgb>>, name: &str) -> (r: Option<
    &'a Vec<Rgb>,
>)
    ensures
        r is Some <==> has_entry(color_set_entries(*sets), name@),
        r matches Some(set) ==> Some(set@) == lookup(color_set_entries(*sets), name@),
{
    sets.get(name)
}

/// `IndexMap::len` on a map of named color sets.
#[verifier::external_body]
fn color_set_len(sets: &IndexMap<String, Vec<Rgb>>) -> (r: usize)
    ensures
        r == color_set_entries(*sets).len(),
{
    sets.len()
}

/// `IndexMap::get_index` on a map of named color sets: the name and the
/// set at a position of the map's order.
#[verifier::external_body]
fn color_set_get_index<'a>(sets: &'a IndexMap<String, Vec<Rgb>>, index: usize) -> (r: (
    &'a String,
    &'a Vec<Rgb>,
))
    requires
        index < color_set_entries(*sets).len(),
    ensures
        r.0@ == color_set_entries(*sets)[index as int].0,
        r.1@ == color_set_entries(*sets)[index as int].1,
{
    sets.get_index(index).unwrap()
}

/// A color that the user added to the palette.
#[derive(Debug, Clone, PartialEq, Eq)]
pub struct CustomColor {
    /// Name of the color.
    pub name: String,
    /// The color value.
    pub value: Rgb,
}

/// What a list of custom colors is in contracts: names and values.
pub open spec fn custom_entries(colors: Seq<CustomColor>) -> Seq<(Seq<char>, Rgb)> {
    colors.map_values(|color: CustomColor| (color.name@, color.value))
}

/// The palette that default colors refer to.
#[derive(Debug, Default)]
pub struct GlobalColorPalette {
    /// Colors that the user added, in the user's order.
    pub custom_colors: Vec<CustomColor>,
    /// Named colors that come with the program.
    pub builtin_colors: IndexMap<String, Rgb>,
    /// Named sets of colors that come with the program.
    pub builtin_color_sets: IndexMap<String, Vec<Rgb>>,
}

/// The channels of an optional color value.
pub open spec fn channels(color: Option<Rgb>) -> Option<Seq<u8>> {
    match color {
        Some(rgb) => Some(rgb.rgb@),
        None => None,
    }
}

/// Whether a gradient has the name.
pub open spec fn is_gradient_name(name: Seq<char>) -> bool {
    exists|gradient: DefaultColorGradient| gradient.name_spec() == name
}

impl GlobalColorPalette {
    /// The channels that the palette resolves a default color to, if it
    /// resolves it: a color value stands for itself; a single color is
    /// looked up among the built-in colors first and then among the user's;
    /// a member of a set is looked up in the built-in sets; a point of a
    /// gradient is sampled from the gradient of that name; and "unknown"
    /// resolves to nothing.
    pub open spec fn resolves(&self, color: DefaultColorView) -> Option<Seq<u8>> {
        match color {
            DefaultColorView::Unknown => None,
            DefaultColorView::HexCode { rgb } => Some(rgb.rgb@),
            DefaultColorView::Single { name } => match lookup(
                color_entries(self.builtin_colors),
                name,
            ) {
                Some(rgb) => Some(rgb.rgb@),
                None => channels(lookup(custom_entries(self.custom_colors@), name)),
            },
            DefaultColorView::ColorSet { set_name, index } => match lookup(
                color_set_entries(self.builtin_color_sets),
                set_name,
            ) {
                Some(set) => if index < set.len() {
                    Some(set[index as int].rgb@)
                } else {
                    None
                },
                None => None,
            },
            DefaultColorView::Gradient { gradient_name, index, total } => if
                gradient_name == DefaultColorGradient::Rainbow.name_spec() {
                Some(DefaultColorGradient::Rainbow.sample_spec(index, total))
            } else {
                None
            },
        }
    }

    /// Whether the palette can resolve a default color. A point of a
    /// gradient is known when the gradient is, wherever the point lies.
    pub open spec fn knows(&self, color: DefaultColorView) -> bool {
        match color {
            DefaultColorView::Gradient { gradient_name, .. } => is_gradient_name(gradient_name),
            _ => self.resolves(color) is Some,
        }
    }

    /// Whether the palette can resolve a default color. A gradient is not
    /// sampled for this.
    pub fn has(&self, color: &DefaultColor) -> (r: bool)
        ensures
            r == self.knows(color@),
    {
        match color {
            DefaultColor::Gradient { gradient_name, .. } => DefaultColorGradient::from_name(
                gradient_name,
            ).is_some(),
            DefaultColor::Unknown => false,
            DefaultColor::HexCode { .. } => true,
            DefaultColor::Single { name } => self.get_single(name).is_some(),
            DefaultColor::ColorSet { set_name, index } => match self.get_set(set_name.as_str()) {
                Some(set) => *index < set.len(),
                None => false,
            },
        }
    }

    /// The built-in color set of that name.
    pub fn get_set(&self, set_name: &str) -> (r: Option<&Vec<Rgb>>)
        ensures
            r is Some <==> has_entry(color_set_entries(self.builtin_color_sets), set_name@),
            r matches Some(set) ==> Some(set@) == lookup(
                color_set_entries(self.builtin_color_sets),
                set_name@,
            ),
    {
        color_set_get(&self.builtin_color_sets, set_name)
    }

    /// The single color of that name: the built-in one, or else the first of
    /// the user's colors with that name.
    fn get_single(&self, name: &String) -> (r: Option<Rgb>)
        ensures
            channels(r) == self.resolves(DefaultColorView::Single { name: name@ }),
    {
        match color_get(&self.builtin_colors, name) {
            Some(rgb) => Some(rgb),
            None => {
                let ghost entries = custom_entries(self.custom_colors@);
                let mut i: usize = 0;
                while i < self.custom_colors.len()
                    invariant
                        i <= self.custom_colors@.len(),
                        entries == custom_entries(self.custom_colors@),
                        lookup(color_entries(self.builtin_colors), name@) is None,
                        forall|j: int| 0 <= j < i ==> (#[trigger] entries[j]).0 != name@,
                    decreases self.custom_colors@.len() - i,
                {
                    if self.custom_colors[i].name == *name {
                        proof {
                            assert(entries[i as int].0 == name@);
                            lemma_entry_index(entries, name@);
                            assert(entry_index(entries, name@) == i);
                        }
                        return Some(self.custom_colors[i].value);
                    }
                    i += 1;
                }
                None
            },
        }
    }

    /// The color value that the palette resolves a default color to, if it
    /// resolves it.
    pub fn get(&self, color: &DefaultColor) -> (r: Option<Rgb>)
        requires
            color@ matches DefaultColorView::Gradient { total, .. } ==> total > 0,
        ensures
            channels(r) == self.resolves(color@),
    {
        match color {
            DefaultColor::Unknown => None,
            DefaultColor::HexCode { rgb } => Some(*rgb),
            DefaultColor::Single { name } => self.get_single(name),
            DefaultColor::ColorSet { set_name, index } => match self.get_set(set_name.as_str()) {
                Some(set) => if *index < set.len() {
                    Some(set[*index])
                } else {
                    None
                },
                None => None,
            },
            DefaultColor::Gradient { gradient_name, index, total } => {
                match DefaultColorGradient::from_name(gradient_name) {
                    Some(gradient) => Some(gradient.sample(*index, *total)),
                    None => None,
                }
            },
        }
    }
}

/// `itertools::equal` on two lists of strings: whether they have the same
/// length and equal strings at each position.
#[verifier::external_body]
fn strings_equal(a: &Vec<String>, b: &Vec<String>) -> (r: bool)
    ensures
        r == (strings_view(a@) == strings_view(b@)),
{
    itertools::equal(a.iter(), b.iter())
}

/// What is left of the entries after the entries for the first `k` names
/// have been taken out, one after the other, each by letting the last entry
/// take its place.
pub open spec fn repair_remaining(
    entries: Seq<(Seq<char>, DefaultColorView)>,
    names: Seq<Seq<char>>,
    k: nat,
) -> Seq<(Seq<char>, DefaultColorView)>
    decreases k,
{
    if k == 0 {
        entries
    } else {
        swap_removed(repair_remaining(entries, names, (k - 1) as nat), names[k - 1])
    }
}

/// The entries for the first `k` names, re-paired: each name with the
/// default color that the old entries held for it, or with "unknown" where
/// they held none.
pub open spec fn repaired_pairs(
    entries: Seq<(Seq<char>, DefaultColorView)>,
    names: Seq<Seq<char>>,
    k: nat,
) -> Seq<(Seq<char>, DefaultColorView)>
    decreases k,
{
    if k == 0 {
        Seq::empty()
    } else {
        let name = names[k - 1];
        let value = match lookup(repair_remaining(entries, names, (k - 1) as nat), name) {
            Some(value) => value,
            None => DefaultColorView::Unknown,
        };
        inserted(repaired_pairs(entries, names, (k - 1) as nat), name, value)
    }
}

impl GlobalColorPalette {
    /// Whether an entry of a scheme has to be reset: it refers to a color,
    /// and the palette cannot resolve the reference.
    pub open spec fn needs_reset(&self, color: DefaultColorView) -> bool {
        !(color is Unknown) && !self.knows(color)
    }

    /// The entries with every reference that the palette cannot resolve
    /// reset to "unknown".
    pub open spec fn reset_unresolved(&self, entries: Seq<(Seq<char>, DefaultColorView)>) -> Seq<
        (Seq<char>, DefaultColorView),
    > {
        entries.map_values(
            |entry: (Seq<char>, DefaultColorView)|
                if self.needs_reset(entry.1) {
                    (entry.0, DefaultColorView::Unknown)
                } else {
                    entry
                },
        )
    }

    /// The entries of a scheme after they have been matched to the names of
    /// a color system, before unresolved references are reset: the entries
    /// themselves where their keys are the names in order, and else one entry
    /// for each name.
    pub open spec fn matched(
        &self,
        entries: Seq<(Seq<char>, DefaultColorView)>,
        names: Seq<Seq<char>>,
    ) -> Seq<(Seq<char>, DefaultColorView)> {
        if entry_keys(entries) == names {
            entries
        } else {
            repaired_pairs(entries, names, names.len())
        }
    }

    /// The entries of a scheme after the repair.
    pub open spec fn repaired(
        &self,
        entries: Seq<(Seq<char>, DefaultColorView)>,
        names: Seq<Seq<char>>,
    ) -> Seq<(Seq<char>, DefaultColorView)> {
        self.reset_unresolved(self.matched(entries, names))
    }

    /// Whether the repair changes a scheme: its keys are not the names in
    /// order, or one of its references has to be reset.
    pub open spec fn repair_changes(
        &self,
        entries: Seq<(Seq<char>, DefaultColorView)>,
        names: Seq<Seq<char>>,
    ) -> bool {
        ||| entry_keys(entries) != names
        ||| exists|i: int|
            0 <= i < entries.len() && self.needs_reset((#[trigger] entries[i]).1)
    }

    /// Resets to "unknown" every reference of the scheme that the palette
    /// cannot resolve, and says whether there was one.
    pub fn reset_unresolved_colors(&self, scheme: &mut ColorScheme) -> (changed: bool)
        ensures
            scheme_entries(*final(scheme)) == self.reset_unresolved(scheme_entries(*old(scheme))),
            changed == exists|i: int|
                0 <= i < scheme_entries(*old(scheme)).len() && self.needs_reset(
                    (#[trigger] scheme_entries(*old(scheme))[i]).1,
                ),
    {
        let ghost before = scheme_entries(*scheme);
        let n = scheme_len(scheme);
        let mut changed = false;
        let mut i: usize = 0;
        while i < n
            invariant
                n == before.len(),
                i <= n,
                scheme_entries(*scheme).len() == n,
                forall|j: int|
                    0 <= j < i ==> scheme_entries(*scheme)[j] == self.reset_unresolved(before)[j],
                forall|j: int| i <= j < n ==> scheme_entries(*scheme)[j] == before[j],
                changed == exists|j: int|
                    0 <= j < i && self.needs_reset((#[trigger] before[j]).1),
            decreases n - i,
        {
            let entry = scheme_get_index(scheme, i);
            assert(entry.1@ == before[i as int].1);
            if !entry.1.is_unknown() && !self.has(&entry.1) {
                scheme_set_value(scheme, i, DefaultColor::Unknown);
                assert(self.needs_reset(before[i as int].1));
                changed = true;
            } else {
                assert(!self.needs_reset(before[i as int].1));
            }
            i += 1;
        }
        assert(scheme_entries(*scheme) =~= self.reset_unresolved(before));
        changed
    }
}

/// The keys of a scheme, in the scheme's order.
fn scheme_keys(scheme: &ColorScheme) -> (keys: Vec<String>)
    ensures
        strings_view(keys@) == entry_keys(scheme_entries(*scheme)),
{
    let n = scheme_len(scheme);
    let mut keys: Vec<String> = Vec::new();
    let mut i: usize = 0;
    while i < n
        invariant
            n == scheme_entries(*scheme).len(),
            i <= n,
            strings_view(keys@) =~= entry_keys(scheme_entries(*scheme)).take(i as int),
        decreases n - i,
    {
        let entry = scheme_get_index(scheme, i);
        let ghost before = keys@;
        keys.push(entry.0);
        assert(strings_view(keys@) =~= strings_view(before).push(entry.0@));
        i += 1;
    }
    assert(entry_keys(scheme_entries(*scheme)).take(n as int) =~= entry_keys(
        scheme_entries(*scheme),
    ));
    keys
}

impl ColorSystem {
    /// The names of the colors, by ID.
    pub fn names(&self) -> (names: Vec<String>)
        ensures
            strings_view(names@) == self.color_names(),
    {
        let n = self.list.len();
        let mut names: Vec<String> = Vec::new();
        let mut i: usize = 0;
        while i < n
            invariant
                n == self.list@.len(),
                i <= n,
                strings_view(names@) =~= self.color_names().take(i as int),
            decreases n - i,
        {
            let name = self.list.at_index(i).name.clone();
            let ghost before = names@;
            names.push(name);
            assert(strings_view(names@) =~= strings_view(before).push(name@));
            i += 1;
        }
        assert(self.color_names().take(n as int) =~= self.color_names());
        names
    }
}

impl GlobalColorPalette {
    /// Modifies a color scheme if necessary to ensure that it is valid for its
    /// color system and the current global palette. Returns `true` if it was
    /// modified.
    ///
    /// A scheme is valid when its keys are the names of the color system's
    /// colors, in their order, and the palette resolves each of its
    /// references but "unknown". A scheme with other keys is rebuilt: each
    /// name gets the reference that the scheme held for it, or "unknown".
    /// References that the palette cannot resolve become "unknown".
    #[must_use]
    pub fn ensure_color_scheme_is_valid_for_color_system(
        &self,
        scheme: &mut ColorScheme,
        color_system: &ColorSystem,
    ) -> (changed: bool)
        ensures
            scheme_entries(*final(scheme)) == self.repaired(
                scheme_entries(*old(scheme)),
                color_system.color_names(),
            ),
            changed == self.repair_changes(
                scheme_entries(*old(scheme)),
                color_system.color_names(),
            ),
    {
        let ghost before = scheme_entries(*scheme);
        let ghost wanted = color_system.color_names();
        let keys = scheme_keys(scheme);
        let names = color_system.names();
        let names_match = strings_equal(&keys, &names);
        if !names_match {
            let mut rebuilt = scheme_new();
            let n = names.len();
            let mut k: usize = 0;
            while k < n
                invariant
                    n == names@.len(),
                    k <= n,
                    wanted == strings_view(names@),
                    scheme_entries(*scheme) == repair_remaining(before, wanted, k as nat),
                    scheme_entries(rebuilt) == repaired_pairs(before, wanted, k as nat),
                decreases n - k,
            {
                let name = &names[k];
                assert(name@ == wanted[k as int]);
                let entry = match scheme_swap_remove_entry(scheme, name) {
                    Some(entry) => entry,
                    None => (name.clone(), DefaultColor::Unknown),
                };
                let replaced = scheme_insert(&mut rebuilt, entry.0, entry.1);
                k += 1;
            }
            *scheme = rebuilt;
        }
        let reset = self.reset_unresolved_colors(scheme);
        !names_match || reset
    }
}

/// Re-pairing against names that do not repeat gives exactly one entry for
/// each name, in the names' order.
pub proof fn lemma_repaired_pairs_keys(
    entries: Seq<(Seq<char>, DefaultColorView)>,
    names: Seq<Seq<char>>,
    k: nat,
)
    requires
        names.no_duplicates(),
        k <= names.len(),
    ensures
        entry_keys(repaired_pairs(entries, names, k)) == names.take(k as int),
    decreases k,
{
    if k == 0 {
        assert(entry_keys(repaired_pairs(entries, names, k)) =~= names.take(0));
    } else {
        let before = repaired_pairs(entries, names, (k - 1) as nat);
        lemma_repaired_pairs_keys(entries, names, (k - 1) as nat);
        let name = names[k - 1];
        assert(entry_keys(before).len() == before.len());
        assert(names.take(k - 1).len() == k - 1);
        if has_entry(before, name) {
            let i = choose|i: int| 0 <= i < before.len() && (#[trigger] before[i]).0 == name;
            assert(entry_keys(before)[i] == name);
            assert(names.take(k - 1)[i] == names[i]);
            assert(names[i] == names[k - 1]);
        }
        let after = repaired_pairs(entries, names, k);
        assert(after.len() == k);
        assert forall|i: int| 0 <= i < k implies entry_keys(after)[i] == names.take(k as int)[i] by {
            if i < k - 1 {
                assert(after[i] == before[i]);
                assert(entry_keys(before)[i] == names.take(k - 1)[i]);
            }
        }
        assert(entry_keys(after) =~= names.take(k as int));
    }
}

/// Repairing a scheme a second time changes nothing: after a repair against
/// a palette and the names of a color system, none of which repeats, the
/// same repair reports no change and leaves the scheme as it is.
pub proof fn lemma_repair_is_idempotent(
    palette: GlobalColorPalette,
    entries: Seq<(Seq<char>, DefaultColorView)>,
    names: Seq<Seq<char>>,
)
    requires
        names.no_duplicates(),
    ensures
        entry_keys(palette.repaired(entries, names)) == names,
        !palette.repair_changes(palette.repaired(entries, names), names),
        palette.matched(palette.repaired(entries, names), names) == palette.repaired(
            entries,
            names,
        ),
        palette.repaired(palette.repaired(entries, names), names) == palette.repaired(
            entries,
            names,
        ),
{
    let matched = palette.matched(entries, names);
    let once = palette.repaired(entries, names);
    if entry_keys(entries) != names {
        lemma_repaired_pairs_keys(entries, names, names.len());
        assert(names.take(names.len() as int) =~= names);
    }
    assert(entry_keys(matched) == names);
    assert(entry_keys(once) =~= entry_keys(matched));
    assert forall|i: int| 0 <= i < once.len() implies !palette.needs_reset(
        (#[trigger] once[i]).1,
    ) by {
        if palette.needs_reset(matched[i].1) {
            assert(once[i].1 is Unknown);
        } else {
            assert(once[i] == matched[i]);
        }
    }
    assert(palette.reset_unresolved(once) =~= once);
}

/// A sorted list with one more item: the item stands behind every item
/// whose size is not larger than its own.
pub open spec fn inserted_by_size(sorted: Seq<(usize, usize)>, item: (usize, usize)) -> Seq<
    (usize, usize),
>
    decreases sorted.len(),
{
    if sorted.len() == 0 {
        seq![item]
    } else if sorted.last().0 <= item.0 {
        sorted.push(item)
    } else {
        inserted_by_size(sorted.drop_last(), item).push(sorted.last())
    }
}

/// The items in ascending order of their first component, the size; items
/// of the same size keep the order that they had.
pub open spec fn stably_sorted_by_size(items: Seq<(usize, usize)>) -> Seq<(usize, usize)>
    decreases items.len(),
{
    if items.len() == 0 {
        Seq::empty()
    } else {
        inserted_by_size(stably_sorted_by_size(items.drop_last()), items.last())
    }
}

/// The items cut into runs of the same size: each run with its size, the
/// runs and the items within them in the order of the items.
pub open spec fn runs_by_size(items: Seq<(usize, usize)>) -> Seq<(usize, Seq<(usize, usize)>)>
    decreases items.len(),
{
    if items.len() == 0 {
        Seq::empty()
    } else {
        let before = runs_by_size(items.drop_last());
        let item = items.last();
        if before.len() > 0 && before.last().0 == item.0 {
            before.drop_last().push((item.0, before.last().1.push(item)))
        } else {
            before.push((item.0, seq![item]))
        }
    }
}

/// `Itertools::sorted_by_key`, with the size as the key: the items in
/// ascending order of size. The sort is stable: items of the same size keep
/// their order.
#[verifier::external_body]
fn sorted_by_size(items: Vec<(usize, usize)>) -> (r: Vec<(usize, usize)>)
    ensures
        r@ == stably_sorted_by_size(items@),
{
    itertools::Itertools::sorted_by_key(items.into_iter(), |item| item.0).collect()
}

/// `Itertools::chunk_by`, with the size as the key: consecutive items of
/// the same size form one group, which comes with that size.
#[verifier::external_body]
fn chunked_by_size(items: Vec<(usize, usize)>) -> (r: Vec<(usize, Vec<(usize, usize)>)>)
    ensures
        r@.len() == runs_by_size(items@).len(),
        forall|g: int|
            0 <= g < r@.len() ==> (#[trigger] r@[g]).0 == runs_by_size(items@)[g].0 && r@[g].1@
                == runs_by_size(items@)[g].1,
{
    let chunks = itertools::Itertools::chunk_by(items.into_iter(), |item| item.0);
    chunks.into_iter().map(|(size, run)| (size, run.collect())).collect()
}

/// Sorting brings in no item that was not there.
pub proof fn lemma_sorted_items(items: Seq<(usize, usize)>, item: (usize, usize))
    requires
        stably_sorted_by_size(items).contains(item),
    ensures
        items.contains(item),
    decreases items.len(),
{
    if items.len() > 0 {
        let before = stably_sorted_by_size(items.drop_last());
        lemma_inserted_items(before, items.last(), item);
        if item == items.last() {
            assert(items[items.len() - 1] == item);
        } else {
            lemma_sorted_items(items.drop_last(), item);
            let i = choose|i: int| 0 <= i < items.drop_last().len() && items.drop_last()[i] == item;
            assert(items[i] == item);
        }
    }
}

proof fn lemma_inserted_items(
    sorted: Seq<(usize, usize)>,
    added: (usize, usize),
    item: (usize, usize),
)
    requires
        inserted_by_size(sorted, added).contains(item),
    ensures
        item == added || sorted.contains(item),
    decreases sorted.len(),
{
    let after = inserted_by_size(sorted, added);
    let i = choose|i: int| 0 <= i < after.len() && after[i] == item;
    if sorted.len() == 0 {
    } else if sorted.last().0 <= added.0 {
        if i < sorted.len() {
            assert(sorted[i] == item);
        }
    } else {
        let shorter = inserted_by_size(sorted.drop_last(), added);
        if i < shorter.len() {
            assert(shorter[i] == item);
            lemma_inserted_items(sorted.drop_last(), added, item);
            if item != added {
                let j = choose|j: int|
                    0 <= j < sorted.drop_last().len() && sorted.drop_last()[j] == item;
                assert(sorted[j] == item);
            }
        } else {
            assert(sorted[sorted.len() - 1] == item);
        }
    }
}

/// Cutting into runs brings in no item that was not there.
pub proof fn lemma_run_items(items: Seq<(usize, usize)>, g: int, m: int)
    requires
        0 <= g < runs_by_size(items).len(),
        0 <= m < runs_by_size(items)[g].1.len(),
    ensures
        items.contains(runs_by_size(items)[g].1[m]),
    decreases items.len(),
{
    if items.len() > 0 {
        let before = runs_by_size(items.drop_last());
        let last = items.last();
        let item = runs_by_size(items)[g].1[m];
        let joins = before.len() > 0 && before.last().0 == last.0;
        let from_before = if joins {
            g < before.len() - 1 || m < before.last().1.len()
        } else {
            g < before.len()
        };
        if from_before {
            assert(before[g].1[m] == item);
            lemma_run_items(items.drop_last(), g, m);
            let i = choose|i: int| 0 <= i < items.drop_last().len() && items.drop_last()[i] == item;
            assert(items[i] == item);
        } else {
            assert(item == last);
            assert(items[items.len() - 1] == item);
        }
    }
}

/// Each color set as a pair of its size and its position in the map.
pub open spec fn sized_positions(entries: Seq<(Seq<char>, Seq<Rgb>)>) -> Seq<(usize, usize)> {
    Seq::new(entries.len(), |i: int| (entries[i].1.len() as usize, i as usize))
}

/// The color sets grouped by size: the groups in ascending order of size,
/// each with its size and with its sets, as pairs of size and position, in
/// the order of the map.
pub open spec fn set_groups(entries: Seq<(Seq<char>, Seq<Rgb>)>) -> Seq<
    (usize, Seq<(usize, usize)>),
> {
    runs_by_size(stably_sorted_by_size(sized_positions(entries)))
}

/// Whether `set` is the name and the colors of the color set that `item`
/// stands for.
pub open spec fn is_set_of(
    set: (&String, &Vec<Rgb>),
    entries: Seq<(Seq<char>, Seq<Rgb>)>,
    item: (usize, usize),
) -> bool {
    &&& item.1 < entries.len()
    &&& set.0@ == entries[item.1 as int].0
    &&& set.1@ == entries[item.1 as int].1
}

/// Whether `group` is the group of color sets that `run` stands for.
pub open spec fn is_group_of(
    group: (usize, Vec<(&String, &Vec<Rgb>)>),
    entries: Seq<(Seq<char>, Seq<Rgb>)>,
    run: (usize, Seq<(usize, usize)>),
) -> bool {
    &&& group.0 == run.0
    &&& group.1@.len() == run.1.len()
    &&& forall|m: int| 0 <= m < run.1.len() ==> is_set_of(#[trigger] group.1@[m], entries, run.1[m])
}

impl GlobalColorPalette {
    /// The built-in color sets grouped by their number of colors: the
    /// groups in ascending order of that number, each with the number and
    /// with the name and the colors of its sets in the palette's order.
    pub fn groups_of_sets(&self) -> (r: Vec<(usize, Vec<(&String, &Vec<Rgb>)>)>)
        ensures
            r@.len() == set_groups(color_set_entries(self.builtin_color_sets)).len(),
            forall|g: int|
                0 <= g < r@.len() ==> is_group_of(
                    #[trigger] r@[g],
                    color_set_entries(self.builtin_color_sets),
                    set_groups(color_set_entries(self.builtin_color_sets))[g],
                ),
    {
        let ghost entries = color_set_entries(self.builtin_color_sets);
        let n = color_set_len(&self.builtin_color_sets);
        let mut items: Vec<(usize, usize)> = Vec::new();
        let mut i: usize = 0;
        while i < n
            invariant
                n == entries.len(),
                entries == color_set_entries(self.builtin_color_sets),
                i <= n,
                items@ =~= sized_positions(entries).take(i as int),
            decreases n - i,
        {
            let set = color_set_get_index(&self.builtin_color_sets, i);
            items.push((set.1.len(), i));
            i += 1;
        }
        assert(sized_positions(entries).take(n as int) =~= sized_positions(entries));
        let ghost positions = items@;
        let sorted = sorted_by_size(items);
        let ghost sorted_items = sorted@;
        let runs = chunked_by_size(sorted);
        let ghost groups = set_groups(entries);
        let mut out: Vec<(usize, Vec<(&String, &Vec<Rgb>)>)> = Vec::new();
        let mut g: usize = 0;
        while g < runs.len()
            invariant
                n == entries.len(),
                entries == color_set_entries(self.builtin_color_sets),
                positions == sized_positions(entries),
                sorted_items == stably_sorted_by_size(positions),
                groups == runs_by_size(sorted_items),
                runs@.len() == groups.len(),
                forall|h: int|
                    0 <= h < runs@.len() ==> (#[trigger] runs@[h]).0 == groups[h].0 && runs@[h].1@
                        == groups[h].1,
                g <= runs@.len(),
                out@.len() == g,
                forall|h: int| 0 <= h < g ==> is_group_of(#[trigger] out@[h], entries, groups[h]),
            decreases runs@.len() - g,
        {
            let run = &runs[g].1;
            let size = runs[g].0;
            let mut sets: Vec<(&String, &Vec<Rgb>)> = Vec::new();
            let mut m: usize = 0;
            while m < run.len()
                invariant
                    n == entries.len(),
                    entries == color_set_entries(self.builtin_color_sets),
                    positions == sized_positions(entries),
                    sorted_items == stably_sorted_by_size(positions),
                    groups == runs_by_size(sorted_items),
                    0 <= g < groups.len(),
                    run@ == groups[g as int].1,
                    m <= run@.len(),
                    sets@.len() == m,
                    forall|k: int| 0 <= k < m ==> is_set_of(#[trigger] sets@[k], entries, run@[k]),
                decreases run@.len() - m,
            {
                let item = run[m];
                proof {
                    lemma_run_items(sorted_items, g as int, m as int);
                    lemma_sorted_items(positions, item);
                    let i = choose|i: int| 0 <= i < positions.len() && positions[i] == item;
                    assert(item.1 == i);
                }
                let set = color_set_get_index(&self.builtin_color_sets, item.1);
                let ghost before = sets@;
                sets.push(set);
                assert(is_set_of(set, entries, item));
                assert forall|k: int| 0 <= k < m + 1 implies is_set_of(
                    #[trigger] sets@[k],
                    entries,
                    run@[k],
                ) by {
                    if k < m {
                        assert(sets@[k] == before[k]);
                    }
                }
                m += 1;
            }
            let ghost before = out@;
            let group = (size, sets);
            assert(is_group_of(group, entries, groups[g as int]));
            out.push(group);
            assert forall|h: int| 0 <= h < g + 1 implies is_group_of(
                #[trigger] out@[h],
                entries,
                groups[h],
            ) by {
                if h < g {
                    assert(out@[h] == before[h]);
                }
            }
            g += 1;
        }
        out
    }
}

/// The entries of the scheme that gives the first `k` colors their own
/// default colors: each name with the default color of its color, or with
/// "unknown" where the color has none. Of two colors with the same name the
/// later one decides.
pub open spec fn default_pairs(colors: Seq<ColorInfo>, k: nat) -> Seq<(Seq<char>, DefaultColorView)>
    decreases k,
{
    if k == 0 {
        Seq::empty()
    } else {
        let color = colors[k - 1];
        let value = match opt_color_view(color.default_color) {
            Some(value) => value,
            None => DefaultColorView::Unknown,
        };
        inserted(default_pairs(colors, (k - 1) as nat), color.name@, value)
    }
}

/// The color scheme that gives each color of a color system its own default
/// color, once the colors of the system are all known.
pub fn default_scheme(color_system: &ColorSystem) -> (r: ColorScheme)
    ensures
        scheme_entries(r) == default_pairs(color_system.list@, color_system.list@.len()),
{
    let mut scheme = scheme_new();
    let n = color_system.list.len();
    let mut k: usize = 0;
    while k < n
        invariant
            n == color_system.list@.len(),
            k <= n,
            scheme_entries(scheme) == default_pairs(color_system.list@, k as nat),
        decreases n - k,
    {
        let color = color_system.list.at_index(k);
        let value = match &color.default_color {
            Some(value) => value.clone(),
            None => DefaultColor::Unknown,
        };
        let replaced = scheme_insert(&mut scheme, color.name.clone(), value);
        k += 1;
    }
    scheme
}

} // verus!
