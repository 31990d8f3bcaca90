//! The manifest data model: named values, named templates, and lookups.

use vstd::prelude::*;
use crate::keys_unique;

verus! {

/// A named configuration value as declared in the manifest.
#[derive(Debug, PartialEq)]
pub enum TemplateValue {
    /// Template value is given in the manifest
    Direct(String),
    /// Template value is given by the user either on the command line or interactively
    User { prompt: String },
}

/// One named deployable unit: a source path and a destination path, both
/// relative to a base directory and both possibly containing `{{name}}`
/// references.
#[derive(Debug, PartialEq)]
pub struct Template {
    pub base_path: String,
    pub name: String,

    pub source: Option<String>,
    pub destination: Option<String>,
}

/// The parsed, validated configuration: all named values and templates,
/// anchored to a base path. Built once per run and immutable thereafter.
#[derive(Debug, PartialEq)]
pub struct Manifest {
    pub base_path: String,

    pub values: Vec<(String, TemplateValue)>,
    pub templates: Vec<(String, Template)>,
}

/// The first entry of an association list whose key reads as `name`.
pub open spec fn assoc_lookup<T>(entries: Seq<(String, T)>, name: Seq<char>) -> Option<T>
    decreases entries.len(),
{
    if entries.len() == 0 {
        None
    } else if entries[0].0@ == name {
        Some(entries[0].1)
    } else {
        assoc_lookup(entries.drop_first(), name)
    }
}

/// Scans an association list for `name`, front to back.
pub fn assoc_get<'a, T>(entries: &'a Vec<(String, T)>, name: &str) -> (r: Option<&'a T>)
    ensures
        match r {
            Some(t) => assoc_lookup(entries@, name@) == Some(*t),
            None => assoc_lookup(entries@, name@) is None,
        },
{
    let key: String = name.to_owned();
    let n = entries.len();
    let mut i: usize = 0;
    proof {
        assert(entries@.skip(0) =~= entries@);
    }
    while i < n
        invariant
            n == entries.len(),
            i <= n,
            key@ == name@,
            assoc_lookup(entries@, name@) == assoc_lookup(entries@.skip(i as int), name@),
        decreases n - i,
    {
        if entries[i].0 == key {
            proof {
                assert(entries@.skip(i as int)[0] == entries@[i as int]);
            }
            return Some(&entries[i].1);
        }
        proof {
            assert(entries@.skip(i as int).drop_first() =~= entries@.skip(i as int + 1));
        }
        i = i + 1;
    }
    proof {
        assert(entries@.skip(n as int).len() == 0);
    }
    None
}

/// A hit names an entry of the list; a miss means no entry carries the key.
pub proof fn lemma_assoc_lookup_index<T>(entries: Seq<(String, T)>, name: Seq<char>)
    ensures
        match assoc_lookup(entries, name) {
            Some(v) => exists|i: int|
                0 <= i < entries.len() && (#[trigger] entries[i]).0@ == name && entries[i].1 == v,
            None => forall|i: int| 0 <= i < entries.len() ==> (#[trigger] entries[i]).0@ != name,
        },
    decreases entries.len(),
{
    if entries.len() == 0 {
    } else if entries[0].0@ == name {
    } else {
        let t = entries.drop_first();
        lemma_assoc_lookup_index(t, name);
        match assoc_lookup(t, name) {
            Some(v) => {
                let j = choose|j: int| 0 <= j < t.len() && (#[trigger] t[j]).0@ == name && t[j].1
                    == v;
                assert(entries[j + 1] == t[j]);
            },
            None => {
                assert forall|i: int| 0 <= i < entries.len() implies (#[trigger] entries[i]).0@
                    != name by {
                    if i > 0 {
                        assert(t[i - 1] == entries[i]);
                    }
                }
            },
        }
    }
}

/// Appending an entry leaves earlier keys' lookups unchanged and makes the
/// new key found exactly when it was absent before.
pub proof fn lemma_assoc_lookup_push<T>(entries: Seq<(String, T)>, name: Seq<char>, k: String, v: T)
    ensures
        assoc_lookup(entries.push((k, v)), name) == (if assoc_lookup(entries, name) is Some {
            assoc_lookup(entries, name)
        } else if k@ == name {
            Some(v)
        } else {
            None
        }),
    decreases entries.len(),
{
    if entries.len() == 0 {
        assert(entries.push((k, v))[0] == (k, v));
        assert(entries.push((k, v)).drop_first() =~= entries);
    } else {
        assert(entries.push((k, v))[0] == entries[0]);
        assert(entries.push((k, v)).drop_first() =~= entries.drop_first().push((k, v)));
        lemma_assoc_lookup_push(entries.drop_first(), name, k, v);
    }
}

impl Manifest {
    /// Both mappings carry no key twice.
    pub open spec fn wf(&self) -> bool {
        keys_unique(self.values@) && keys_unique(self.templates@)
    }

    /// The value declared under `name`, if any.
    pub open spec fn spec_value_of(&self, name: Seq<char>) -> Option<TemplateValue> {
        assoc_lookup(self.values@, name)
    }

    /// The template declared under `name`, if any.
    pub open spec fn spec_template_of(&self, name: Seq<char>) -> Option<Template> {
        assoc_lookup(self.templates@, name)
    }

    /// Looks a template up by its name.
    pub fn template_by_name(&self, name: &str) -> (r: Option<&Template>)
        ensures
            match r {
                Some(t) => self.spec_template_of(name@) == Some(*t),
                None => self.spec_template_of(name@) is None,
            },
    {
        assoc_get(&self.templates, name)
    }

    /// Looks a value declaration up by its name.
    pub fn value_by_name(&self, name: &str) -> (r: Option<&TemplateValue>)
        ensures
            match r {
                Some(v) => self.spec_value_of(name@) == Some(*v),
                None => self.spec_value_of(name@) is None,
            },
    {
        assoc_get(&self.values, name)
    }
}

} // verus!
