//! Names of puzzle elements: the names that a user assigned, and the
//! resolution of a complete set of names from them.

use crate::ids::IndexNewtype;
use crate::ordering::CustomOrdering;
use core::marker::PhantomData;
use vstd::prelude::*;

verus! {

/// What a stored optional name is in contracts.
pub open spec fn opt_name_view(name: Option<String>) -> Option<Seq<char>> {
    match name {
        Some(s) => Some(s@),
        None => None,
    }
}

/// What a table of optional names is in contracts.
pub open spec fn name_table_view(names: Seq<Option<String>>) -> Seq<Option<Seq<char>>> {
    names.map_values(|name: Option<String>| opt_name_view(name))
}

/// Name that a table holds for an index; none beyond the table's end.
pub open spec fn name_at(names: Seq<Option<Seq<char>>>, index: nat) -> Option<Seq<char>> {
    if index < names.len() {
        names[index as int]
    } else {
        None
    }
}

/// Table `names` after the name for `index` has been set to `name`. Clearing
/// a name beyond the table's end changes nothing; setting one there extends
/// the table.
pub open spec fn name_table_set(
    names: Seq<Option<Seq<char>>>,
    index: nat,
    name: Option<Seq<char>>,
) -> Seq<Option<Seq<char>>> {
    if index < names.len() {
        names.update(index as int, name)
    } else if name is None {
        names
    } else {
        names + Seq::new((index - names.len()) as nat, |i: int| None::<Seq<char>>).push(name)
    }
}

/// Names and display names that a user assigned to the elements of one kind.
/// An element may have either, both or neither.
pub struct NamingScheme<I: IndexNewtype> {
    names: Vec<Option<String>>,
    display_names: Vec<Option<String>>,
    marker: PhantomData<I>,
}

impl<I: IndexNewtype> NamingScheme<I> {
    /// Names by index of the ID.
    pub closed spec fn names(&self) -> Seq<Option<Seq<char>>> {
        name_table_view(self.names@)
    }

    /// Display names by index of the ID.
    pub closed spec fn display_names(&self) -> Seq<Option<Seq<char>>> {
        name_table_view(self.display_names@)
    }

    /// Name that the user gave to `id`, if any.
    pub open spec fn name_of(&self, id: I) -> Option<Seq<char>> {
        name_at(self.names(), id.index_spec())
    }

    /// Display name that the user gave to `id`, if any.
    pub open spec fn display_of(&self, id: I) -> Option<Seq<char>> {
        name_at(self.display_names(), id.index_spec())
    }

    /// Scheme in which no element has a name.
    pub fn new() -> (r: Self)
        ensures
            r.names() == Seq::<Option<Seq<char>>>::empty(),
            r.display_names() == Seq::<Option<Seq<char>>>::empty(),
    {
        NamingScheme { names: Vec::new(), display_names: Vec::new(), marker: PhantomData }
    }

    /// Sets or clears the name of `id`.
    pub fn set_name(&mut self, id: I, name: Option<String>)
        ensures
            final(self).names() == name_table_set(
                old(self).names(),
                id.index_spec(),
                opt_name_view(name),
            ),
            final(self).display_names() == old(self).display_names(),
    {
        set_in_table(&mut self.names, id.to_usize(), name);
    }

    /// Sets or clears the display name of `id`.
    pub fn set_display(&mut self, id: I, display: Option<String>)
        ensures
            final(self).display_names() == name_table_set(
                old(self).display_names(),
                id.index_spec(),
                opt_name_view(display),
            ),
            final(self).names() == old(self).names(),
    {
        set_in_table(&mut self.display_names, id.to_usize(), display);
    }

    /// Name that the user gave to `id`, if any.
    pub fn get(&self, id: I) -> (r: Option<String>)
        ensures
            opt_name_view(r) == self.name_of(id),
    {
        get_from_table(&self.names, id.to_usize())
    }

    /// Display name that the user gave to `id`, if any.
    pub fn get_display(&self, id: I) -> (r: Option<String>)
        ensures
            opt_name_view(r) == self.display_of(id),
    {
        get_from_table(&self.display_names, id.to_usize())
    }
}

fn get_from_table(table: &Vec<Option<String>>, index: usize) -> (r: Option<String>)
    ensures
        opt_name_view(r) == name_at(name_table_view(table@), index as nat),
{
    if index < table.len() {
        match &table[index] {
            Some(s) => Some(s.clone()),
            None => None,
        }
    } else {
        None
    }
}

fn set_in_table(table: &mut Vec<Option<String>>, index: usize, name: Option<String>)
    ensures
        name_table_view(final(table)@) == name_table_set(
            name_table_view(old(table)@),
            index as nat,
            opt_name_view(name),
        ),
{
    let ghost before = name_table_view(table@);
    if index < table.len() {
        table.set(index, name);
        assert(name_table_view(table@) =~= before.update(index as int, opt_name_view(name)));
    } else if name.is_some() {
        let ghost start = table@.len();
        while table.len() < index
            invariant
                start <= table@.len() <= index,
                start == before.len(),
                name_table_view(table@) =~= before + Seq::new(
                    (table@.len() - start) as nat,
                    |i: int| None::<Seq<char>>,
                ),
            decreases index - table@.len(),
        {
            let ghost prev = table@;
            table.push(None);
            assert(name_table_view(table@) =~= name_table_view(prev).push(None));
        }
        let ghost prev = table@;
        table.push(name);
        assert(name_table_view(table@) =~= name_table_view(prev).push(opt_name_view(name)));
        assert(name_table_view(table@) =~= before + Seq::new(
            (index - start) as nat,
            |i: int| None::<Seq<char>>,
        ).push(opt_name_view(name)));
    }
}

/// Whether some element has `name` as its name in the table.
pub open spec fn is_used(names: Seq<Option<Seq<char>>>, name: Seq<char>) -> bool {
    exists|i: int| 0 <= i < names.len() && #[trigger] names[i] == Some(name)
}

/// Whether the name at position `j` of the table also stands at an earlier
/// position.
pub open spec fn repeats_earlier(names: Seq<Option<Seq<char>>>, j: int) -> bool {
    names[j] is Some && exists|i: int| 0 <= i < j && #[trigger] names[i] == names[j]
}

/// The names of a table that repeat an earlier one, in the table's order: a
/// name that occurs `n` times is listed `n - 1` times.
pub open spec fn duplicates(names: Seq<Option<Seq<char>>>) -> Seq<Seq<char>>
    decreases names.len(),
{
    if names.len() == 0 {
        Seq::empty()
    } else {
        let before = duplicates(names.drop_last());
        if repeats_earlier(names, names.len() - 1) {
            before.push(names.last()->0)
        } else {
            before
        }
    }
}

/// The candidates that no element has as its name, in the candidates' order.
pub open spec fn unused_names(names: Seq<Option<Seq<char>>>, candidates: Seq<Seq<char>>) -> Seq<
    Seq<char>,
>
    decreases candidates.len(),
{
    if candidates.len() == 0 {
        Seq::empty()
    } else {
        let before = unused_names(names, candidates.drop_last());
        if is_used(names, candidates.last()) {
            before
        } else {
            before.push(candidates.last())
        }
    }
}

/// How many positions of `order` hold an ID without a name.
pub open spec fn unnamed_count<I: IndexNewtype>(
    names: Seq<Option<Seq<char>>>,
    order: Seq<I>,
) -> nat
    decreases order.len(),
{
    if order.len() == 0 {
        0
    } else {
        let before = unnamed_count(names, order.drop_last());
        if name_at(names, order.last().index_spec()) is None {
            before + 1
        } else {
            before
        }
    }
}

/// Name that the element at position `p` of `order` ends up with: its own
/// name if it has one, else the first unused candidate that no earlier
/// position has taken.
pub open spec fn resolved_name<I: IndexNewtype>(
    names: Seq<Option<Seq<char>>>,
    order: Seq<I>,
    candidates: Seq<Seq<char>>,
    p: int,
) -> Seq<char> {
    match name_at(names, order[p].index_spec()) {
        Some(name) => name,
        None => unused_names(names, candidates)[unnamed_count(names, order.take(p)) as int],
    }
}

/// Display name that the element at position `p` of `order` ends up with:
/// its own display name if it has one, else its resolved name.
pub open spec fn resolved_display<I: IndexNewtype>(
    names: Seq<Option<Seq<char>>>,
    display_names: Seq<Option<Seq<char>>>,
    order: Seq<I>,
    candidates: Seq<Seq<char>>,
    p: int,
) -> Seq<char> {
    match name_at(display_names, order[p].index_spec()) {
        Some(display) => display,
        None => resolved_name(names, order, candidates, p),
    }
}

/// The unused candidates of a prefix of the candidates are a prefix of the
/// unused candidates of all of them.
pub proof fn lemma_unused_names_prefix(
    names: Seq<Option<Seq<char>>>,
    candidates: Seq<Seq<char>>,
    j: int,
)
    requires
        0 <= j <= candidates.len(),
    ensures
        unused_names(names, candidates.take(j)).len() <= unused_names(names, candidates).len(),
        unused_names(names, candidates.take(j)) == unused_names(names, candidates).take(
            unused_names(names, candidates.take(j)).len() as int,
        ),
    decreases candidates.len(),
{
    if j == candidates.len() {
        assert(candidates.take(j) =~= candidates);
        assert(unused_names(names, candidates).take(unused_names(names, candidates).len() as int)
            =~= unused_names(names, candidates));
    } else {
        let shorter = candidates.drop_last();
        lemma_unused_names_prefix(names, shorter, j);
        assert(shorter.take(j) =~= candidates.take(j));
        let part = unused_names(names, candidates.take(j));
        let most = unused_names(names, shorter);
        assert(part =~= unused_names(names, candidates).take(part.len() as int));
    }
}

/// Every unused candidate is one of the candidates, and no element has it
/// as its name.
pub proof fn lemma_unused_names_members(
    names: Seq<Option<Seq<char>>>,
    candidates: Seq<Seq<char>>,
    k: int,
)
    requires
        0 <= k < unused_names(names, candidates).len(),
    ensures
        !is_used(names, unused_names(names, candidates)[k]),
        candidates.contains(unused_names(names, candidates)[k]),
    decreases candidates.len(),
{
    if candidates.len() > 0 {
        let shorter = candidates.drop_last();
        let before = unused_names(names, shorter);
        if k < before.len() {
            lemma_unused_names_members(names, shorter, k);
            let name = before[k];
            let i = choose|i: int| 0 <= i < shorter.len() && shorter[i] == name;
            assert(candidates[i] == name);
        } else {
            assert(candidates[candidates.len() - 1] == candidates.last());
        }
    }
}

/// Candidates without repetition leave unused candidates without repetition.
pub proof fn lemma_unused_names_distinct(
    names: Seq<Option<Seq<char>>>,
    candidates: Seq<Seq<char>>,
    k1: int,
    k2: int,
)
    requires
        candidates.no_duplicates(),
        0 <= k1 < k2 < unused_names(names, candidates).len(),
    ensures
        unused_names(names, candidates)[k1] != unused_names(names, candidates)[k2],
    decreases candidates.len(),
{
    if candidates.len() > 0 {
        let shorter = candidates.drop_last();
        let before = unused_names(names, shorter);
        assert(shorter.no_duplicates());
        if k2 < before.len() {
            lemma_unused_names_distinct(names, shorter, k1, k2);
        } else {
            lemma_unused_names_members(names, shorter, k1);
            let name = before[k1];
            let i = choose|i: int| 0 <= i < shorter.len() && shorter[i] == name;
            assert(candidates[i] == name);
            assert(candidates[candidates.len() - 1] == candidates.last());
        }
    }
}

/// A longer prefix of the order holds at least as many unnamed elements.
pub proof fn lemma_unnamed_count_monotonic<I: IndexNewtype>(
    names: Seq<Option<Seq<char>>>,
    order: Seq<I>,
    p: int,
    q: int,
)
    requires
        0 <= p <= q <= order.len(),
    ensures
        unnamed_count(names, order.take(p)) <= unnamed_count(names, order.take(q)),
    decreases q - p,
{
    if p < q {
        lemma_unnamed_count_monotonic(names, order, p, q - 1);
        assert(order.take(q).drop_last() =~= order.take(q - 1));
    }
}

/// A name that stands at two positions of the table is among its duplicates.
pub proof fn lemma_repeated_name_is_duplicate(
    names: Seq<Option<Seq<char>>>,
    i: int,
    j: int,
)
    requires
        0 <= i < j < names.len(),
        names[i] is Some,
        names[i] == names[j],
    ensures
        duplicates(names).contains(names[j]->0),
    decreases names.len(),
{
    let shorter = names.drop_last();
    let before = duplicates(shorter);
    if j == names.len() - 1 {
        assert(repeats_earlier(names, names.len() - 1));
        assert(before.push(names.last()->0)[before.len() as int] == names.last()->0);
    } else {
        lemma_repeated_name_is_duplicate(shorter, i, j);
        let name = names[j]->0;
        let k = choose|k: int| 0 <= k < before.len() && before[k] == name;
        if repeats_earlier(names, names.len() - 1) {
            assert(before.push(names.last()->0)[k] == name);
        }
    }
}

/// Warning: a name, or a display name, is assigned to more than one element.
/// The elements keep it all the same.
#[derive(Debug, Clone, PartialEq, Eq)]
pub struct DuplicateName {
    /// The name that occurs again.
    pub name: String,
}

/// Error: there are fewer unused candidate names than elements without a
/// name.
#[derive(Debug, Clone, Copy, PartialEq, Eq, Structural)]
pub struct RanOutOfNames {
    /// Position in the order of the first element that is left without a
    /// name.
    pub position: usize,
}

/// What a list of warnings is in contracts: the names they report.
pub open spec fn warning_names(warnings: Seq<DuplicateName>) -> Seq<Seq<char>> {
    warnings.map_values(|w: DuplicateName| w.name@)
}

/// What a list of strings is in contracts.
pub open spec fn strings_view(strings: Seq<String>) -> Seq<Seq<char>> {
    strings.map_values(|s: String| s@)
}

/// Reports each name of the table that repeats an earlier one.
pub fn warn_on_duplicates(names: &Vec<Option<String>>) -> (warnings: Vec<DuplicateName>)
    ensures
        warning_names(warnings@) == duplicates(name_table_view(names@)),
{
    let ghost table = name_table_view(names@);
    let mut warnings: Vec<DuplicateName> = Vec::new();
    let mut j: usize = 0;
    assert(table.take(0) =~= Seq::empty());
    while j < names.len()
        invariant
            j <= names@.len(),
            table == name_table_view(names@),
            warning_names(warnings@) == duplicates(table.take(j as int)),
        decreases names@.len() - j,
    {
        let ghost prefix = table.take(j as int + 1);
        assert(prefix.drop_last() =~= table.take(j as int));
        match &names[j] {
            Some(name) => {
                let mut seen = false;
                let mut i: usize = 0;
                while i < j
                    invariant
                        i <= j < names@.len(),
                        table == name_table_view(names@),
                        names@[j as int] == Some(*name),
                        seen ==> exists|k: int| 0 <= k < i && #[trigger] table[k] == table[j as int],
                        !seen ==> forall|k: int| 0 <= k < i ==> #[trigger] table[k] != table[j as int],
                    decreases j - i,
                {
                    assert(table[i as int] == opt_name_view(names@[i as int]));
                    assert(table[j as int] == Some(name@));
                    match &names[i] {
                        Some(other) => {
                            if *other == *name {
                                seen = true;
                                assert(table[i as int] == table[j as int]);
                            }
                        },
                        None => {},
                    }
                    i += 1;
                }
                assert(seen == repeats_earlier(prefix, j as int)) by {
                    assert(prefix[j as int] == Some(name@));
                    if seen {
                        let k = choose|k: int| 0 <= k < j && #[trigger] table[k] == table[j as int];
                        assert(prefix[k] == prefix[j as int]);
                    }
                    if repeats_earlier(prefix, j as int) {
                        let k = choose|k: int| 0 <= k < j && #[trigger] prefix[k] == prefix[j as int];
                        assert(table[k] == table[j as int]);
                    }
                }
                if seen {
                    let ghost before = warnings@;
                    let warning = DuplicateName { name: name.clone() };
                    warnings.push(warning);
                    assert(warning_names(warnings@) =~= warning_names(before).push(name@));
                }
            },
            None => {
                assert(!repeats_earlier(prefix, j as int));
            },
        }
        j += 1;
    }
    assert(table.take(j as int) =~= table);
    warnings
}

/// Whether some element has `name` as its name in the table.
pub fn name_is_used(names: &Vec<Option<String>>, name: &String) -> (used: bool)
    ensures
        used == is_used(name_table_view(names@), name@),
{
    let ghost table = name_table_view(names@);
    let mut i: usize = 0;
    while i < names.len()
        invariant
            i <= names@.len(),
            table == name_table_view(names@),
            forall|k: int| 0 <= k < i ==> #[trigger] table[k] != Some(name@),
        decreases names@.len() - i,
    {
        match &names[i] {
            Some(other) => {
                if *other == *name {
                    assert(table[i as int] == Some(name@));
                    return true;
                }
            },
            None => {},
        }
        i += 1;
    }
    false
}

/// Whether the candidates run out at `position` of the order: the element
/// there has no name, and the elements before it have taken every unused
/// candidate.
pub open spec fn runs_out_at<I: IndexNewtype>(
    names: Seq<Option<Seq<char>>>,
    order: Seq<I>,
    candidates: Seq<Seq<char>>,
    position: nat,
) -> bool {
    &&& position < order.len()
    &&& name_at(names, order[position as int].index_spec()) is None
    &&& unnamed_count(names, order.take(position as int)) == unused_names(names, candidates).len()
}

/// Result of resolving the names of all elements of one kind.
pub struct Autonamed<I: IndexNewtype> {
    /// One warning for each name, and then for each display name, that the
    /// user assigned to more than one element.
    pub warnings: Vec<DuplicateName>,
    /// For each position of the order the ID with its name and its display
    /// name; or the error, when the candidates did not suffice.
    pub names: Result<Vec<(I, (String, String))>, RanOutOfNames>,
}

/// Whether `entry` is what position `p` of the order resolves to.
pub open spec fn is_resolved_entry<I: IndexNewtype>(
    entry: (I, (String, String)),
    names: Seq<Option<Seq<char>>>,
    display_names: Seq<Option<Seq<char>>>,
    order: Seq<I>,
    candidates: Seq<Seq<char>>,
    p: int,
) -> bool {
    &&& entry.0 == order[p]
    &&& entry.1.0@ == resolved_name(names, order, candidates, p)
    &&& entry.1.1@ == resolved_display(names, display_names, order, candidates, p)
}

/// First position at or after `cursor` whose candidate no element has as
/// its name; the number of candidates when there is none.
fn next_unused(names: &Vec<Option<String>>, autonames: &Vec<String>, cursor: usize) -> (found:
    usize)
    requires
        cursor <= autonames@.len(),
    ensures
        cursor <= found <= autonames@.len(),
        unused_names(name_table_view(names@), strings_view(autonames@).take(found as int))
            == unused_names(name_table_view(names@), strings_view(autonames@).take(cursor as int)),
        found < autonames@.len() ==> !is_used(
            name_table_view(names@),
            strings_view(autonames@)[found as int],
        ),
{
    let ghost table = name_table_view(names@);
    let ghost candidates = strings_view(autonames@);
    let mut found: usize = cursor;
    while found < autonames.len()
        invariant
            cursor <= found <= autonames@.len(),
            table == name_table_view(names@),
            candidates == strings_view(autonames@),
            unused_names(table, candidates.take(found as int)) == unused_names(
                table,
                candidates.take(cursor as int),
            ),
        decreases autonames@.len() - found,
    {
        if !name_is_used(names, &autonames[found]) {
            return found;
        }
        assert(candidates.take(found as int + 1).drop_last() =~= candidates.take(found as int));
        found += 1;
    }
    found
}

/// Resolves the name and the display name of every element in `order`.
///
/// An element keeps the name that the user gave it. An element without one
/// gets the next candidate of `autonames` that no element has as its name
/// and that no earlier position has taken. An element without a display
/// name shows its resolved name. Names that the user assigned twice are
/// reported and kept. When the unused candidates do not suffice, the error
/// names the first position that is left without a name.
pub fn iter_autonamed<I: IndexNewtype>(
    names: &NamingScheme<I>,
    order: &Vec<I>,
    autonames: &Vec<String>,
) -> (r: Autonamed<I>)
    ensures
        warning_names(r.warnings@) == duplicates(names.names()) + duplicates(
            names.display_names(),
        ),
        r.names is Ok <==> unnamed_count(names.names(), order@) <= unused_names(
            names.names(),
            strings_view(autonames@),
        ).len(),
        r.names matches Ok(list) ==> list@.len() == order@.len() && forall|p: int|
            0 <= p < order@.len() ==> is_resolved_entry(
                #[trigger] list@[p],
                names.names(),
                names.display_names(),
                order@,
                strings_view(autonames@),
                p,
            ),
        r.names matches Err(e) ==> runs_out_at(
            names.names(),
            order@,
            strings_view(autonames@),
            e.position as nat,
        ),
{
    let warnings = names.duplicate_warnings();
    let ghost table = names.names();
    let ghost displays = names.display_names();
    let ghost candidates = strings_view(autonames@);
    let ghost unused = unused_names(table, candidates);
    let mut list: Vec<(I, (String, String))> = Vec::new();
    let mut cursor: usize = 0;
    let mut p: usize = 0;
    assert(candidates.take(0) =~= Seq::empty());
    assert(order@.take(0) =~= Seq::empty());
    while p < order.len()
        invariant
            p <= order@.len(),
            cursor <= autonames@.len(),
            table == names.names(),
            table == name_table_view(names.names@),
            displays == names.display_names(),
            candidates == strings_view(autonames@),
            unused == unused_names(table, candidates),
            list@.len() == p,
            warning_names(warnings@) == duplicates(table) + duplicates(displays),
            unused_names(table, candidates.take(cursor as int)).len() == unnamed_count(
                table,
                order@.take(p as int),
            ),
            forall|q: int|
                0 <= q < p ==> is_resolved_entry(
                    #[trigger] list@[q],
                    table,
                    displays,
                    order@,
                    candidates,
                    q,
                ),
        decreases order@.len() - p,
    {
        let id = order[p];
        assert(order@.take(p as int + 1).drop_last() =~= order@.take(p as int));
        let name: String = match names.get(id) {
            Some(own) => own,
            None => {
                let found = next_unused(&names.names, autonames, cursor);
                if found >= autonames.len() {
                    proof {
                        assert(candidates.take(found as int) =~= candidates);
                        lemma_unnamed_count_monotonic(table, order@, p as int + 1, order@.len() as int);
                        assert(order@.take(order@.len() as int) =~= order@);
                    }
                    return Autonamed { warnings, names: Err(RanOutOfNames { position: p }) };
                }
                let fresh = autonames[found].clone();
                proof {
                    let k = unnamed_count(table, order@.take(p as int)) as int;
                    let shorter = unused_names(table, candidates.take(found as int));
                    let longer = unused_names(table, candidates.take(found as int + 1));
                    assert(candidates.take(found as int + 1).drop_last() =~= candidates.take(
                        found as int,
                    ));
                    assert(candidates.take(found as int + 1).last() == candidates[found as int]);
                    assert(longer == shorter.push(candidates[found as int]));
                    lemma_unused_names_prefix(table, candidates, found as int + 1);
                    assert(longer[k] == unused[k]);
                    assert(fresh@ == candidates[found as int]);
                    assert(fresh@ == resolved_name(table, order@, candidates, p as int));
                }
                cursor = found + 1;
                fresh
            },
        };
        assert(name@ == resolved_name(table, order@, candidates, p as int));
        let display: String = match names.get_display(id) {
            Some(own) => own,
            None => name.clone(),
        };
        let ghost before = list@;
        list.push((id, (name, display)));
        assert(forall|q: int| 0 <= q < p ==> list@[q] == before[q]);
        p += 1;
    }
    proof {
        assert(order@.take(p as int) =~= order@);
        lemma_unused_names_prefix(table, candidates, cursor as int);
    }
    Autonamed { warnings, names: Ok(list) }
}

/// The position `p` of the order takes the unused candidate of this index.
proof fn lemma_unnamed_position_in_range<I: IndexNewtype>(
    names: Seq<Option<Seq<char>>>,
    order: Seq<I>,
    p: int,
)
    requires
        0 <= p < order.len(),
        name_at(names, order[p].index_spec()) is None,
    ensures
        unnamed_count(names, order.take(p)) < unnamed_count(names, order),
        unnamed_count(names, order.take(p + 1)) == unnamed_count(names, order.take(p)) + 1,
{
    assert(order.take(p + 1).drop_last() =~= order.take(p));
    lemma_unnamed_count_monotonic(names, order, p + 1, order.len() as int);
    assert(order.take(order.len() as int) =~= order);
}

/// An autogenerated name never collides with a name that the user
/// assigned: where resolution succeeds, the name of an element without a
/// name of its own is one of the candidates, and no element has it as its
/// own name.
pub proof fn lemma_autoname_avoids_user_names<I: IndexNewtype>(
    names: Seq<Option<Seq<char>>>,
    order: Seq<I>,
    candidates: Seq<Seq<char>>,
    p: int,
)
    requires
        0 <= p < order.len(),
        name_at(names, order[p].index_spec()) is None,
        unnamed_count(names, order) <= unused_names(names, candidates).len(),
    ensures
        !is_used(names, resolved_name(names, order, candidates, p)),
        candidates.contains(resolved_name(names, order, candidates, p)),
{
    lemma_unnamed_position_in_range(names, order, p);
    lemma_unused_names_members(names, candidates, unnamed_count(names, order.take(p)) as int);
}

/// Names are unique unless a warning says otherwise: where the candidates
/// do not repeat and resolution succeeds, two positions of the order that
/// hold different IDs and resolve to the same name do so only with a name
/// that is reported as a duplicate.
pub proof fn lemma_shared_name_is_reported<I: IndexNewtype>(
    names: Seq<Option<Seq<char>>>,
    order: Seq<I>,
    candidates: Seq<Seq<char>>,
    p: int,
    q: int,
)
    requires
        candidates.no_duplicates(),
        0 <= p < order.len(),
        0 <= q < order.len(),
        order[p] != order[q],
        unnamed_count(names, order) <= unused_names(names, candidates).len(),
        resolved_name(names, order, candidates, p) == resolved_name(names, order, candidates, q),
    ensures
        duplicates(names).contains(resolved_name(names, order, candidates, p)),
{
    let i = order[p].index_spec();
    let j = order[q].index_spec();
    let own_p = name_at(names, i);
    let own_q = name_at(names, j);
    if i == j {
        I::index_is_injective(order[p], order[q]);
    }
    if own_p is Some && own_q is Some {
        if i < j {
            lemma_repeated_name_is_duplicate(names, i as int, j as int);
        } else {
            lemma_repeated_name_is_duplicate(names, j as int, i as int);
        }
    } else if own_p is Some {
        lemma_autoname_avoids_user_names(names, order, candidates, q);
        assert(names[i as int] == Some(resolved_name(names, order, candidates, q)));
    } else if own_q is Some {
        lemma_autoname_avoids_user_names(names, order, candidates, p);
        assert(names[j as int] == Some(resolved_name(names, order, candidates, p)));
    } else {
        lemma_unnamed_position_in_range(names, order, p);
        lemma_unnamed_position_in_range(names, order, q);
        let kp = unnamed_count(names, order.take(p)) as int;
        let kq = unnamed_count(names, order.take(q)) as int;
        if p < q {
            lemma_unnamed_count_monotonic(names, order, p + 1, q);
            lemma_unused_names_distinct(names, candidates, kp, kq);
        } else {
            lemma_unnamed_count_monotonic(names, order, q + 1, p);
            lemma_unused_names_distinct(names, candidates, kq, kp);
        }
    }
}

impl<I: IndexNewtype> NamingScheme<I> {
    /// The names, and then the display names, that are assigned again to
    /// another element.
    pub open spec fn duplicate_names(&self) -> Seq<Seq<char>> {
        duplicates(self.names()) + duplicates(self.display_names())
    }

    /// Whether some element has `name` as its name.
    pub fn has_name(&self, name: &String) -> (r: bool)
        ensures
            r == is_used(self.names(), name@),
    {
        name_is_used(&self.names, name)
    }

    /// One warning for each name, and then for each display name, that is
    /// assigned to more than one element.
    pub fn duplicate_warnings(&self) -> (warnings: Vec<DuplicateName>)
        ensures
            warning_names(warnings@) == self.duplicate_names(),
    {
        let mut warnings = warn_on_duplicates(&self.names);
        let mut display_warnings = warn_on_duplicates(&self.display_names);
        let ghost first = warnings@;
        let ghost second = display_warnings@;
        warnings.append(&mut display_warnings);
        assert(warning_names(warnings@) =~= warning_names(first) + warning_names(second));
        warnings
    }
}

/// Result of resolving the names of all elements of one kind, by ID.
pub struct ResolvedNames {
    /// One warning for each name, and then for each display name, that the
    /// user assigned to more than one element.
    pub warnings: Vec<DuplicateName>,
    /// The name and the display name of each ID, at the ID's index; or the
    /// error, when the candidates did not suffice.
    pub names: Result<Vec<(String, String)>, RanOutOfNames>,
}

/// Resolves the names of all live elements of one kind. Candidates are
/// handed out in the order of `ordering`, so that the element listed first
/// gets the first unused candidate; the result is indexed by ID.
pub fn resolve_names<I: IndexNewtype>(
    names: &NamingScheme<I>,
    ordering: &CustomOrdering<I>,
    autonames: &Vec<String>,
) -> (r: ResolvedNames)
    requires
        ordering.wf(),
    ensures
        warning_names(r.warnings@) == duplicates(names.names()) + duplicates(
            names.display_names(),
        ),
        r.names is Ok <==> unnamed_count(names.names(), ordering.ids()) <= unused_names(
            names.names(),
            strings_view(autonames@),
        ).len(),
        r.names matches Ok(table) ==> table@.len() == ordering@.len() && forall|p: int|
            0 <= p < ordering@.len() ==> {
                let entry = #[trigger] table@[ordering@[p] as int];
                &&& entry.0@ == resolved_name(
                    names.names(),
                    ordering.ids(),
                    strings_view(autonames@),
                    p,
                )
                &&& entry.1@ == resolved_display(
                    names.names(),
                    names.display_names(),
                    ordering.ids(),
                    strings_view(autonames@),
                    p,
                )
            },
        r.names matches Err(e) ==> runs_out_at(
            names.names(),
            ordering.ids(),
            strings_view(autonames@),
            e.position as nat,
        ),
{
    let ids = ordering.ids_in_order();
    let resolved = iter_autonamed(names, &ids, autonames);
    let warnings = resolved.warnings;
    let list = match resolved.names {
        Ok(list) => list,
        Err(e) => {
            return ResolvedNames { warnings, names: Err(e) };
        },
    };
    let n = list.len();
    let mut table: Vec<(String, String)> = Vec::new();
    let mut k: usize = 0;
    while k < n
        invariant
            k <= n,
            table@.len() == k,
        decreases n - k,
    {
        table.push((String::new(), String::new()));
        k += 1;
    }
    let ghost table_names = names.names();
    let ghost displays = names.display_names();
    let ghost candidates = strings_view(autonames@);
    let mut p: usize = 0;
    while p < n
        invariant
            ordering.wf(),
            ids@ == ordering.ids(),
            n == ordering@.len(),
            n == list@.len(),
            table@.len() == n,
            p <= n,
            forall|q: int| 0 <= q < n ==> (#[trigger] ids@[q]).index_spec() == ordering@[q],
            forall|q: int|
                0 <= q < n ==> is_resolved_entry(
                    #[trigger] list@[q],
                    table_names,
                    displays,
                    ids@,
                    candidates,
                    q,
                ),
            forall|q: int|
                0 <= q < p ==> {
                    let entry = #[trigger] table@[ordering@[q] as int];
                    &&& entry.0@ == resolved_name(table_names, ids@, candidates, q)
                    &&& entry.1@ == resolved_display(table_names, displays, ids@, candidates, q)
                },
        decreases n - p,
    {
        let index = list[p].0.to_usize();
        let name = list[p].1.0.clone();
        let display = list[p].1.1.clone();
        assert(index == ordering@[p as int]);
        let ghost before = table@;
        table.set(index, (name, display));
        assert forall|q: int| 0 <= q < p + 1 implies {
            let entry = #[trigger] table@[ordering@[q] as int];
            &&& entry.0@ == resolved_name(table_names, ids@, candidates, q)
            &&& entry.1@ == resolved_display(table_names, displays, ids@, candidates, q)
        } by {
            if q < p {
                assert(ordering@[q] != ordering@[p as int]);
                assert(table@[ordering@[q] as int] == before[ordering@[q] as int]);
            }
        }
        p += 1;
    }
    ResolvedNames { warnings, names: Ok(table) }
}

} // verus!
