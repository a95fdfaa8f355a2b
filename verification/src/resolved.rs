use vstd::prelude::*;

verus! {

use crate::document::{keys_unique, lemma_table_map_absent, lemma_table_map_index, table_map};
use crate::environment::EnvironmentName;
use crate::error::ConfigError;
use crate::text::str_eq;
use crate::value::{kind_name, spec_kind_name, Entry, Kind, Value};

/// The final merged key/value mapping, tagged with the active environment
/// and the source file path; immutable once built.
#[derive(Debug)]
pub struct ResolvedConfig {
    pub values: Vec<Entry>,
    pub environment: EnvironmentName,
    pub path: String,
}

impl ResolvedConfig {
    /// The mapping this configuration holds.
    pub open spec fn map(self) -> Map<Seq<char>, Value> {
        table_map(self.values@)
    }

    /// Well-formedness: the merge never leaves two entries for one key.
    pub open spec fn wf(self) -> bool {
        keys_unique(self.values@)
    }

    /// Looks a key up in the merged mapping. Absence of the key is a
    /// distinct condition for the caller, not an error.
    pub fn get<'a>(&'a self, key: &str) -> (r: Option<&'a Value>)
        requires
            self.wf(),
        ensures
            match r {
                Some(v) => self.map().dom().contains(key@) && *v == self.map()[key@],
                None => !self.map().dom().contains(key@),
            },
    {
        let n = self.values.len();
        let mut i: usize = 0;
        while i < n
            invariant
                i <= n,
                n == self.values@.len(),
                self.wf(),
                forall|k: int| 0 <= k < i ==> self.values@[k].key@ != key@,
            decreases n - i,
        {
            if str_eq(self.values[i].key.as_str(), key) {
                proof {
                    lemma_table_map_index(self.values@, i as int);
                }
                return Some(&self.values[i].value);
            }
            i += 1;
        }
        proof {
            lemma_table_map_absent(self.values@, key@);
        }
        None
    }

    /// Looks a key up and validates its semantic type. A stored value whose
    /// tag differs from the requested type is a type mismatch naming the
    /// key, both type names and the source file path; there is no implicit
    /// cross-tag coercion. A missing key is reported as `Ok(None)`, not as
    /// an error.
    pub fn extract<'a>(&'a self, key: &str, expected: Kind) -> (r: Result<
        Option<&'a Value>,
        ConfigError,
    >)
        requires
            self.wf(),
        ensures
            !self.map().dom().contains(key@) ==> (r matches Ok(v) && v is None),
            self.map().dom().contains(key@) && self.map()[key@].spec_kind() == expected
                ==> (r matches Ok(o) && o matches Some(v) && *v == self.map()[key@]),
            self.map().dom().contains(key@) && self.map()[key@].spec_kind() != expected
                ==> (r matches Err(e) && e matches ConfigError::TypeMismatch {
                key: k,
                expected: en,
                actual: an,
                path: p,
            } && p matches Some(pp) && k@ == key@ && en@ == spec_kind_name(expected)
                && an@ == spec_kind_name(self.map()[key@].spec_kind()) && pp@ == self.path@),
    {
        match self.get(key) {
            None => Ok(None),
            Some(v) => {
                let actual = v.kind();
                if actual == expected {
                    Ok(Some(v))
                } else {
                    Err(
                        ConfigError::TypeMismatch {
                            key: String::from_str(key),
                            expected: String::from_str(kind_name(expected)),
                            actual: String::from_str(kind_name(actual)),
                            path: Some(self.path.clone()),
                        },
                    )
                }
            },
        }
    }
}

} // verus!
