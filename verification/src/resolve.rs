//! Run-scoped value resolution: the resolved value map and the protocol
//! that reconciles manifest declarations with answers gathered during the
//! run. The map grows monotonically and is discarded when the run ends.

use vstd::prelude::*;
use crate::keys_unique;
use crate::manifest::{
    assoc_lookup, assoc_get, lemma_assoc_lookup_index, lemma_assoc_lookup_push, Manifest,
    TemplateValue,
};

verus! {

/// The outcome of one resolution attempt.
#[derive(Debug, PartialEq)]
pub enum Resolution {
    /// The name resolves to this text now.
    Done(String),
    /// The name is declared as a prompt with this question and has no answer
    /// yet; the caller must ask and record the answer.
    Prompt(String),
}

/// Why a value reference cannot be resolved.
#[derive(Debug, PartialEq)]
pub enum ResolutionError {
    /// The referenced name is not declared in the manifest.
    UnknownValue(String),
    /// A value reference opened but never closed.
    MalformedToken,
}

/// What resolution yields at the specification level.
pub enum ResolveSpec {
    /// Resolves to this text now, without a prompt.
    Val(Seq<char>),
    /// Declared as a prompt with this question, not answered yet.
    NeedPrompt(Seq<char>),
    /// Not declared at all.
    Undeclared,
}

/// The run-scoped resolved value map.
#[derive(Debug, PartialEq)]
pub struct ValueCache {
    entries: Vec<(String, String)>,
}

impl View for ValueCache {
    type V = Seq<(String, String)>;

    closed spec fn view(&self) -> Seq<(String, String)> {
        self.entries@
    }
}

/// What resolving `name` yields right now: a cached answer first, else the
/// manifest's declaration.
pub open spec fn resolve_value(
    m: Manifest,
    cache: Seq<(String, String)>,
    name: Seq<char>,
) -> ResolveSpec {
    match assoc_lookup(cache, name) {
        Some(v) => ResolveSpec::Val(v@),
        None => match assoc_lookup(m.values@, name) {
            Some(TemplateValue::Direct(t)) => ResolveSpec::Val(t@),
            Some(TemplateValue::User { prompt }) => ResolveSpec::NeedPrompt(prompt@),
            None => ResolveSpec::Undeclared,
        },
    }
}

/// Every cached entry restates the manifest: a cached name is declared, and
/// a cached `Direct` value carries exactly its declared text.
pub open spec fn cache_consistent(m: Manifest, cache: Seq<(String, String)>) -> bool {
    forall|i: int|
        0 <= i < cache.len() ==> match assoc_lookup(m.values@, (#[trigger] cache[i]).0@) {
            Some(TemplateValue::Direct(t)) => cache[i].1@ == t@,
            Some(TemplateValue::User { .. }) => true,
            None => false,
        }
}

impl ValueCache {
    /// The map carries no name twice.
    pub open spec fn wf(&self) -> bool {
        keys_unique(self@)
    }

    /// An empty map: nothing resolved yet.
    pub fn new() -> (r: ValueCache)
        ensures
            r@ == Seq::<(String, String)>::empty(),
            r.wf(),
    {
        ValueCache { entries: Vec::new() }
    }

    /// The cached text under `name`, if that name was resolved already.
    pub fn get(&self, name: &str) -> (r: Option<&String>)
        ensures
            match r {
                Some(v) => assoc_lookup(self@, name@) == Some(*v),
                None => assoc_lookup(self@, name@) is None,
            },
    {
        assoc_get(&self.entries, name)
    }

    /// Records the answer for a name that had none yet; the map grows by
    /// exactly that entry.
    pub fn record(&mut self, name: &str, answer: String)
        requires
            assoc_lookup(old(self)@, name@) is None,
        ensures
            final(self)@.len() == old(self)@.len() + 1,
            old(self)@.is_prefix_of(final(self)@),
            final(self)@.last().0@ == name@,
            final(self)@.last().1 == answer,
            assoc_lookup(final(self)@, name@) == Some(answer),
            old(self).wf() ==> final(self).wf(),
    {
        let ghost pre = self.entries@;
        let key: String = name.to_owned();
        self.entries.push((key, answer));
        proof {
            lemma_assoc_lookup_push(pre, name@, self.entries@.last().0, self.entries@.last().1);
            lemma_assoc_lookup_index(pre, name@);
            assert(pre.is_prefix_of(self.entries@));
            if keys_unique(pre) {
                assert forall|i: int, j: int|
                    0 <= i < j < self.entries@.len() implies self.entries@[i].0@
                    != self.entries@[j].0@ by {
                    if j < pre.len() {
                        assert(self.entries@[i] == pre[i]);
                        assert(self.entries@[j] == pre[j]);
                    } else {
                        assert(self.entries@[i] == pre[i]);
                    }
                }
            }
        }
    }
}

/// Resolves `name` through the manifest and the run's cache: a cached
/// answer or declared text comes back at once (a first-seen `Direct` text
/// is cached), an unanswered prompt comes back as the question to ask, and
/// an undeclared name is an error.
pub fn resolve(manifest: &Manifest, name: &str, cache: &mut ValueCache) -> (r: Result<
    Resolution,
    ResolutionError,
>)
    requires
        old(cache).wf(),
        cache_consistent(*manifest, old(cache)@),
    ensures
        final(cache).wf(),
        cache_consistent(*manifest, final(cache)@),
        old(cache)@.is_prefix_of(final(cache)@),
        match r {
            Ok(Resolution::Done(v)) => resolve_value(*manifest, old(cache)@, name@)
                == ResolveSpec::Val(v@) && assoc_lookup(final(cache)@, name@) == Some(v),
            Ok(Resolution::Prompt(p)) => resolve_value(*manifest, old(cache)@, name@)
                == ResolveSpec::NeedPrompt(p@) && final(cache)@ == old(cache)@,
            Err(ResolutionError::UnknownValue(n)) => n@ == name@ && resolve_value(
                *manifest,
                old(cache)@,
                name@,
            ) == ResolveSpec::Undeclared && final(cache)@ == old(cache)@,
            Err(ResolutionError::MalformedToken) => false,
        },
{
    proof {
        assert(old(cache)@.is_prefix_of(old(cache)@));
    }
    match cache.get(name) {
        Some(v) => {
            return Ok(Resolution::Done(v.clone()));
        },
        None => {},
    }
    match manifest.value_by_name(name) {
        Some(TemplateValue::Direct(t)) => {
            let text = t.clone();
            let ghost pre = cache@;
            cache.record(name, t.clone());
            proof {
                assert forall|i: int|
                    0 <= i < cache@.len() implies match assoc_lookup(
                    manifest.values@,
                    (#[trigger] cache@[i]).0@,
                ) {
                    Some(TemplateValue::Direct(t2)) => cache@[i].1@ == t2@,
                    Some(TemplateValue::User { .. }) => true,
                    None => false,
                } by {
                    if i < pre.len() {
                        assert(cache@[i] == pre[i]);
                    } else {
                        assert(cache@[i] == cache@.last());
                    }
                }
            }
            Ok(Resolution::Done(text))
        },
        Some(TemplateValue::User { prompt }) => Ok(Resolution::Prompt(prompt.clone())),
        None => Err(ResolutionError::UnknownValue(name.to_owned())),
    }
}

/// A value declared `Direct(text)` resolves to `text` under every cache
/// state a run can reach, and never asks a prompt — so resolving the same
/// name any number of times within one run returns `text` every time.
pub proof fn lemma_direct_never_prompts(
    m: Manifest,
    cache: Seq<(String, String)>,
    name: Seq<char>,
    text: String,
)
    requires
        cache_consistent(m, cache),
        assoc_lookup(m.values@, name) == Some(TemplateValue::Direct(text)),
    ensures
        resolve_value(m, cache, name) == ResolveSpec::Val(text@),
{
    lemma_assoc_lookup_index(cache, name);
    match assoc_lookup(cache, name) {
        Some(v) => {
            let i = choose|i: int|
                0 <= i < cache.len() && (#[trigger] cache[i]).0@ == name && cache[i].1 == v;
            assert(cache[i].1@ == text@);
        },
        None => {},
    }
}

/// A name that already has a cached answer resolves to that answer and asks
/// nothing — once a prompt's answer is recorded, the prompt is never issued
/// again within the run.
pub proof fn lemma_cached_never_prompts(
    m: Manifest,
    cache: Seq<(String, String)>,
    name: Seq<char>,
    answer: String,
)
    requires
        assoc_lookup(cache, name) == Some(answer),
    ensures
        resolve_value(m, cache, name) == ResolveSpec::Val(answer@),
{
}

} // verus!
