use vstd::prelude::*;

verus! {

use crate::environment::{EnvironmentName, recognized};
use crate::text::lower_seq;
use crate::value::{Entry, Value};

/// One named top-level table of a parsed document.
#[derive(Debug)]
pub struct Section {
    pub name: String,
    pub entries: Vec<Entry>,
}

/// A parsed configuration document: its top-level sections in document
/// order. One section may be the distinguished global-defaults section; the
/// others are named-environment sections.
#[derive(Debug)]
pub struct Document {
    pub sections: Vec<Section>,
}

/// The section names, in document order.
pub open spec fn names_of(s: Seq<Section>) -> Seq<Seq<char>> {
    s.map_values(|sec: Section| sec.name@)
}

/// For each section, in order, the keys of its entries, in order.
pub open spec fn keys_of(s: Seq<Section>) -> Seq<Seq<Seq<char>>> {
    s.map_values(|sec: Section| sec.entries@.map_values(|en: Entry| en.key@))
}

/// No two sections share a name.
pub open spec fn names_unique(s: Seq<Section>) -> bool {
    forall|i: int, j: int| 0 <= i < j < s.len() ==> s[i].name@ != s[j].name@
}

/// Every value of every section carries a source span.
pub open spec fn sections_spanned(s: Seq<Section>) -> bool {
    forall|i: int, k: int|
        0 <= i < s.len() && 0 <= k < s[i].entries@.len() ==> (#[trigger] s[i].entries@[k])
            .value.all_spanned()
}

impl Document {
    /// What the parser guarantees of a document it yields: section names are
    /// unique and every value carries its source span.
    pub open spec fn wf(self) -> bool {
        names_unique(self.sections@) && sections_spanned(self.sections@)
    }
}

/// The name of the global-defaults section.
pub open spec fn is_global_name(name: Seq<char>) -> bool {
    name == "global"@
}

/// Whether a section name case-insensitively denotes the given environment.
pub open spec fn matches_environment(name: Seq<char>, env: EnvironmentName) -> bool {
    lower_seq(name) == env.spec_canonical()
}

/// Whether a top-level section name is admissible: the global section or a
/// recognized environment name.
pub open spec fn valid_section_name(name: Seq<char>) -> bool {
    is_global_name(name) || recognized(name) is Some
}

/// The mapping a table's entry list denotes; a later entry for the same key
/// overrides an earlier one.
pub open spec fn table_map(entries: Seq<Entry>) -> Map<Seq<char>, Value>
    decreases entries.len(),
{
    if entries.len() == 0 {
        Map::empty()
    } else {
        table_map(entries.drop_last()).insert(entries.last().key@, entries.last().value)
    }
}

/// No two entries share a key.
pub open spec fn keys_unique(entries: Seq<Entry>) -> bool {
    forall|i: int, j: int| 0 <= i < j < entries.len() ==> entries[i].key@ != entries[j].key@
}

/// `j` is the position of the first global section.
pub open spec fn first_global(s: Seq<Section>, j: int) -> bool {
    &&& 0 <= j < s.len()
    &&& is_global_name(s[j].name@)
    &&& forall|k: int| 0 <= k < j ==> !is_global_name(s[k].name@)
}

/// `j` is the position of the first section of the given environment.
pub open spec fn first_for_environment(s: Seq<Section>, env: EnvironmentName, j: int) -> bool {
    &&& 0 <= j < s.len()
    &&& matches_environment(s[j].name@, env)
    &&& forall|k: int| 0 <= k < j ==> !matches_environment(s[k].name@, env)
}

/// The entries of the global section, or none if the document has no global
/// section.
pub open spec fn global_entries(s: Seq<Section>) -> Seq<Entry> {
    if exists|j: int| first_global(s, j) {
        s[choose|j: int| first_global(s, j)].entries@
    } else {
        Seq::empty()
    }
}

/// The entries of the active environment's section, or none if the document
/// has no section for it.
pub open spec fn environment_entries(s: Seq<Section>, env: EnvironmentName) -> Seq<Entry> {
    if exists|j: int| first_for_environment(s, env, j) {
        s[choose|j: int| first_for_environment(s, env, j)].entries@
    } else {
        Seq::empty()
    }
}

/// The mapping that merging a document under an active environment owes:
/// every key of the global section, overridden by the keys of the active
/// environment's section; sections of other environments contribute nothing.
pub open spec fn merged_map(s: Seq<Section>, env: EnvironmentName) -> Map<Seq<char>, Value> {
    table_map(global_entries(s)).union_prefer_right(table_map(environment_entries(s, env)))
}

/// Law: merging respects the active environment. For every document and
/// every key: a key present in both the global section and the active
/// environment's section resolves to the environment's value; a key present
/// in the global section alone keeps the global value; and a key absent from
/// both — in particular one present only in some other, non-active
/// environment's section — is absent from the merged result.
pub proof fn lemma_merge_respects_environment(s: Seq<Section>, env: EnvironmentName, k: Seq<char>)
    ensures
        table_map(global_entries(s)).dom().contains(k) && table_map(
            environment_entries(s, env),
        ).dom().contains(k) ==> merged_map(s, env).dom().contains(k) && merged_map(s, env)[k]
            == table_map(environment_entries(s, env))[k],
        table_map(global_entries(s)).dom().contains(k) && !table_map(
            environment_entries(s, env),
        ).dom().contains(k) ==> merged_map(s, env).dom().contains(k) && merged_map(s, env)[k]
            == table_map(global_entries(s))[k],
        !table_map(global_entries(s)).dom().contains(k) && !table_map(
            environment_entries(s, env),
        ).dom().contains(k) ==> !merged_map(s, env).dom().contains(k),
{
}

/// Appending one entry to a table overrides its key in the table's mapping.
pub proof fn lemma_table_map_push(entries: Seq<Entry>, e: Entry)
    ensures
        table_map(entries.push(e)) == table_map(entries).insert(e.key@, e.value),
{
    assert(entries.push(e).drop_last() =~= entries);
    assert(entries.push(e).last() == e);
}

/// Replacing the entry that holds a key overrides that key in the table's
/// mapping, provided keys are unique.
pub proof fn lemma_table_map_update(entries: Seq<Entry>, i: int, e: Entry)
    requires
        keys_unique(entries),
        0 <= i < entries.len(),
        entries[i].key@ == e.key@,
    ensures
        table_map(entries.update(i, e)) == table_map(entries).insert(e.key@, e.value),
    decreases entries.len(),
{
    let u = entries.update(i, e);
    if i == entries.len() - 1 {
        assert(u.drop_last() =~= entries.drop_last());
        assert(u.last() == e);
        assert(table_map(entries.drop_last()).insert(entries.last().key@, entries.last().value)
            .insert(e.key@, e.value) =~= table_map(entries.drop_last()).insert(e.key@, e.value));
    } else {
        assert(u.drop_last() =~= entries.drop_last().update(i, e));
        assert(u.last() == entries.last());
        lemma_table_map_update(entries.drop_last(), i, e);
        let l = entries.last();
        assert(l.key@ != e.key@);
        assert(table_map(entries.drop_last()).insert(e.key@, e.value).insert(l.key@, l.value)
            =~= table_map(entries.drop_last()).insert(l.key@, l.value).insert(e.key@, e.value));
    }
}

/// Folding a second table's entries onto a mapping, in order and each entry
/// overriding its key, yields the union that prefers the second table.
pub open spec fn insert_seq(m: Map<Seq<char>, Value>, entries: Seq<Entry>) -> Map<
    Seq<char>,
    Value,
>
    decreases entries.len(),
{
    if entries.len() == 0 {
        m
    } else {
        insert_seq(m, entries.drop_last()).insert(entries.last().key@, entries.last().value)
    }
}

pub proof fn lemma_insert_seq_union(m: Map<Seq<char>, Value>, entries: Seq<Entry>)
    ensures
        insert_seq(m, entries) == m.union_prefer_right(table_map(entries)),
    decreases entries.len(),
{
    if entries.len() == 0 {
        assert(m.union_prefer_right(Map::empty()) =~= m);
    } else {
        lemma_insert_seq_union(m, entries.drop_last());
        assert(m.union_prefer_right(table_map(entries.drop_last())).insert(
            entries.last().key@,
            entries.last().value,
        ) =~= m.union_prefer_right(table_map(entries)));
    }
}

/// The entry that holds a key gives that key's value in the table's mapping,
/// provided keys are unique.
pub proof fn lemma_table_map_index(entries: Seq<Entry>, i: int)
    requires
        keys_unique(entries),
        0 <= i < entries.len(),
    ensures
        table_map(entries).dom().contains(entries[i].key@),
        table_map(entries)[entries[i].key@] == entries[i].value,
    decreases entries.len(),
{
    if i < entries.len() - 1 {
        lemma_table_map_index(entries.drop_last(), i);
        assert(entries[i].key@ != entries.last().key@);
    }
}

/// A key no entry holds is outside the table's mapping.
pub proof fn lemma_table_map_absent(entries: Seq<Entry>, k: Seq<char>)
    requires
        forall|i: int| 0 <= i < entries.len() ==> entries[i].key@ != k,
    ensures
        !table_map(entries).dom().contains(k),
    decreases entries.len(),
{
    if entries.len() > 0 {
        lemma_table_map_absent(entries.drop_last(), k);
    }
}

} // verus!
