use vstd::prelude::*;

verus! {

use crate::document::{
    environment_entries, first_for_environment, first_global, global_entries, insert_seq,
    is_global_name, keys_unique, lemma_insert_seq_union, lemma_table_map_push,
    lemma_table_map_update, matches_environment, merged_map, table_map, valid_section_name,
    Document,
};
use crate::environment::{lemma_lower_canonical, EnvironmentName};
use crate::error::ConfigError;
use crate::resolved::ResolvedConfig;
use crate::text::{eq_ignore_case, str_eq};
use crate::value::Entry;

/// Whether a top-level section name is admissible: the global section or a
/// recognized environment name, the latter matched case-insensitively.
pub fn section_name_valid(name: &str) -> (r: bool)
    ensures
        r == valid_section_name(name@),
{
    proof {
        lemma_lower_canonical();
    }
    str_eq(name, "global") || eq_ignore_case(name, "development") || eq_ignore_case(
        name,
        "staging",
    ) || eq_ignore_case(name, "production")
}

/// Inserts one entry into a key-unique entry list, overwriting the entry
/// that holds the same key if there is one.
fn insert_or_replace(dst: &mut Vec<Entry>, e: Entry)
    requires
        keys_unique(old(dst)@),
    ensures
        keys_unique(final(dst)@),
        table_map(final(dst)@) == table_map(old(dst)@).insert(e.key@, e.value),
{
    let n = dst.len();
    let mut i: usize = 0;
    while i < n
        invariant
            i <= n,
            n == dst@.len(),
            dst@ == old(dst)@,
            keys_unique(dst@),
            forall|k: int| 0 <= k < i ==> dst@[k].key@ != e.key@,
        decreases n - i,
    {
        if str_eq(dst[i].key.as_str(), e.key.as_str()) {
            let ghost before = dst@;
            proof {
                lemma_table_map_update(dst@, i as int, e);
            }
            dst.set(i, e);
            proof {
                assert forall|x: int, y: int|
                    0 <= x < y < dst@.len() implies dst@[x].key@ != dst@[y].key@ by {
                    assert(before[x].key@ != before[y].key@);
                }
            }
            return;
        }
        i += 1;
    }
    proof {
        lemma_table_map_push(dst@, e);
    }
    dst.push(e);
    proof {
        assert forall|x: int, y: int|
            0 <= x < y < dst@.len() implies dst@[x].key@ != dst@[y].key@ by {
            if y < dst@.len() - 1 {
                assert(old(dst)@[x].key@ != old(dst)@[y].key@);
            }
        }
    }
}

/// Folds a table's entries, in order, onto a key-unique entry list; each
/// entry overrides its key, so the list comes to denote the union that
/// prefers the folded table.
fn insert_entries(dst: &mut Vec<Entry>, src: Vec<Entry>)
    requires
        keys_unique(old(dst)@),
    ensures
        keys_unique(final(dst)@),
        table_map(final(dst)@) == table_map(old(dst)@).union_prefer_right(table_map(src@)),
{
    let ghost src0 = src@;
    let ghost dst0 = old(dst)@;
    let mut src = src;
    let n = src.len();
    let mut k: usize = 0;
    proof {
        assert(src0.skip(0) =~= src0);
        assert(src0.take(0) =~= Seq::<Entry>::empty());
    }
    while k < n
        invariant
            k <= n,
            n == src0.len(),
            src@ == src0.skip(k as int),
            keys_unique(dst@),
            table_map(dst@) == insert_seq(table_map(dst0), src0.take(k as int)),
        decreases n - k,
    {
        let e = src.remove(0);
        proof {
            assert(src0.skip(k as int).remove(0) =~= src0.skip(k + 1));
            assert(e == src0[k as int]);
            assert(src0.take(k + 1).drop_last() =~= src0.take(k as int));
            assert(src0.take(k + 1).last() == src0[k as int]);
        }
        insert_or_replace(dst, e);
        k += 1;
    }
    proof {
        assert(src0.take(n as int) =~= src0);
        lemma_insert_seq_union(table_map(dst0), src0);
    }
}

/// Merges a parsed document under an active environment.
///
/// Every top-level section name must be the global section or a recognized
/// environment name; the first offender, in document order, is reported as a
/// bad environment entry and nothing is merged. Otherwise the result maps
/// every key of the global section, overridden by the keys of the active
/// environment's section; keys present only in other environments' sections
/// are discarded.
pub fn merge(doc: Document, env: EnvironmentName, path: &str) -> (r: Result<
    ResolvedConfig,
    ConfigError,
>)
    ensures
        (r is Ok) <==> (forall|j: int|
            0 <= j < doc.sections@.len() ==> valid_section_name(doc.sections@[j].name@)),
        r matches Ok(rc) ==> rc.wf() && rc.environment == env && rc.path@ == path@
            && rc.map() == merged_map(doc.sections@, env),
        r matches Err(e) ==> (e matches ConfigError::BadEnvironmentEntry { name, path: p }
            && p@ == path@ && exists|j: int|
            0 <= j < doc.sections@.len() && !valid_section_name(doc.sections@[j].name@)
                && name@ == doc.sections@[j].name@ && (forall|k: int|
                0 <= k < j ==> valid_section_name(doc.sections@[k].name@))),
{
    let ghost s = doc.sections@;
    let n = doc.sections.len();
    let mut j: usize = 0;
    while j < n
        invariant
            j <= n,
            n == s.len(),
            doc.sections@ == s,
            forall|k: int| 0 <= k < j ==> valid_section_name(s[k].name@),
        decreases n - j,
    {
        if !section_name_valid(doc.sections[j].name.as_str()) {
            return Err(
                ConfigError::BadEnvironmentEntry {
                    name: doc.sections[j].name.clone(),
                    path: String::from_str(path),
                },
            );
        }
        j += 1;
    }
    let cname = env.canonical();
    proof {
        lemma_lower_canonical();
    }
    let mut gi: Option<usize> = None;
    let mut ei: Option<usize> = None;
    let mut t: usize = 0;
    while t < n
        invariant
            t <= n,
            n == s.len(),
            doc.sections@ == s,
            cname@ == env.spec_canonical(),
            crate::text::lower_seq(cname@) == cname@,
            match gi {
                Some(g) => first_global(s, g as int),
                None => forall|k: int| 0 <= k < t ==> !is_global_name(s[k].name@),
            },
            match ei {
                Some(x) => first_for_environment(s, env, x as int),
                None => forall|k: int| 0 <= k < t ==> !matches_environment(s[k].name@, env),
            },
        decreases n - t,
    {
        if gi.is_none() && str_eq(doc.sections[t].name.as_str(), "global") {
            gi = Some(t);
        }
        if ei.is_none() && eq_ignore_case(doc.sections[t].name.as_str(), cname) {
            ei = Some(t);
        }
        t += 1;
    }
    proof {
        match gi {
            Some(g) => {
                assert(exists|x: int| first_global(s, x));
                let x0 = choose|x: int| first_global(s, x);
                assert(x0 == g as int);
                assert(global_entries(s) == s[g as int].entries@);
            },
            None => {
                assert(forall|x: int| !first_global(s, x));
                assert(global_entries(s) =~= Seq::<Entry>::empty());
            },
        }
        match ei {
            Some(x) => {
                assert(exists|y: int| first_for_environment(s, env, y));
                let y0 = choose|y: int| first_for_environment(s, env, y);
                assert(y0 == x as int);
                assert(environment_entries(s, env) == s[x as int].entries@);
            },
            None => {
                assert(forall|y: int| !first_for_environment(s, env, y));
                assert(environment_entries(s, env) =~= Seq::<Entry>::empty());
            },
        }
    }
    let mut sections = doc.sections;
    let (ge, ee): (Vec<Entry>, Vec<Entry>) = match (gi, ei) {
        (None, None) => (Vec::new(), Vec::new()),
        (Some(g), None) => (sections.remove(g).entries, Vec::new()),
        (None, Some(x)) => (Vec::new(), sections.remove(x).entries),
        (Some(g), Some(x)) => {
            proof {
                lemma_lower_canonical();
                assert(!matches_environment(s[g as int].name@, env));
                assert(g as int != x as int);
            }
            if g < x {
                let se = sections.remove(x);
                proof {
                    assert(s.remove(x as int)[g as int] == s[g as int]);
                }
                let sg = sections.remove(g);
                (sg.entries, se.entries)
            } else {
                let sg = sections.remove(g);
                proof {
                    assert(s.remove(g as int)[x as int] == s[x as int]);
                }
                let se = sections.remove(x);
                (sg.entries, se.entries)
            }
        },
    };
    proof {
        assert(ge@ == global_entries(s));
        assert(ee@ == environment_entries(s, env));
    }
    let mut values: Vec<Entry> = Vec::new();
    insert_entries(&mut values, ge);
    insert_entries(&mut values, ee);
    proof {
        assert(Map::<Seq<char>, crate::value::Value>::empty().union_prefer_right(
            table_map(global_entries(s)),
        ) =~= table_map(global_entries(s)));
    }
    Ok(ResolvedConfig { values, environment: env, path: String::from_str(path) })
}

} // verus!
