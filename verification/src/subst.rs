//! The substitution engine: replaces `{{name}}` value references inside a
//! string, scanning left to right, non-overlapping, without nesting. An
//! opening marker that never closes is a malformed token.

use vstd::prelude::*;
use vstd::string::StringExecFns;
use crate::manifest::{assoc_lookup, Manifest, TemplateValue};
use crate::resolve::{resolve_value, ResolveSpec, ResolutionError, ValueCache};
use crate::text::{
    chars_vec, find_double, find_double_in, lemma_find_double_props, string_from_chars, vec_skip,
    vec_take,
};

verus! {

/// The outcome of substituting one string.
#[derive(Debug, PartialEq)]
pub enum Substituted {
    /// Every reference resolved; this is the substituted text.
    Done(String),
    /// An unanswered prompt was referenced: the caller must ask `prompt`,
    /// record the answer under `name`, and run again.
    NeedInput { name: String, prompt: String },
}

/// The outcome at the specification level.
pub enum SubstSpec {
    /// Every reference resolved to this text.
    Done(Seq<char>),
    /// The first unresolved reference names an unanswered prompt.
    Prompt(Seq<char>, Seq<char>),
    /// The first unresolved reference names nothing declared.
    Unknown(Seq<char>),
    /// An opening marker never closes.
    Malformed,
}

/// What substituting `text` yields: the text before the first `{{` is kept,
/// the name up to the next `}}` is resolved, and the rest is substituted in
/// turn; `{{` without a later `}}` is malformed.
pub open spec fn subst_spec(text: Seq<char>, m: Manifest, cache: Seq<(String, String)>) -> SubstSpec
    decreases text.len(),
    via subst_spec_decreases
{
    match find_double(text, '{') {
        None => SubstSpec::Done(text),
        Some(i) => {
            let rest = text.skip(i + 2);
            match find_double(rest, '}') {
                None => SubstSpec::Malformed,
                Some(j) => {
                    let name = rest.take(j);
                    let tail = rest.skip(j + 2);
                    match resolve_value(m, cache, name) {
                        ResolveSpec::Val(v) => match subst_spec(tail, m, cache) {
                            SubstSpec::Done(out) => SubstSpec::Done(text.take(i) + v + out),
                            other => other,
                        },
                        ResolveSpec::NeedPrompt(p) => SubstSpec::Prompt(name, p),
                        ResolveSpec::Undeclared => SubstSpec::Unknown(name),
                    }
                },
            }
        },
    }
}

#[via_fn]
proof fn subst_spec_decreases(text: Seq<char>, m: Manifest, cache: Seq<(String, String)>) {
    lemma_find_double_props(text, '{');
    match find_double(text, '{') {
        Some(i) => {
            lemma_find_double_props(text.skip(i + 2), '}');
        },
        None => {},
    }
}

/// The exec outcome states exactly the specification outcome.
pub open spec fn subst_outcome_matches(s: SubstSpec, r: Result<Substituted, ResolutionError>) -> bool {
    match s {
        SubstSpec::Done(out) => r matches Ok(Substituted::Done(o)) && o@ == out,
        SubstSpec::Prompt(n, p) => r matches Ok(Substituted::NeedInput { name, prompt })
            && name@ == n && prompt@ == p,
        SubstSpec::Unknown(n) => r matches Err(ResolutionError::UnknownValue(u)) && u@ == n,
        SubstSpec::Malformed => r matches Err(ResolutionError::MalformedToken),
    }
}

/// The scanning core, over a character vector.
fn subst_chars(v: &Vec<char>, manifest: &Manifest, cache: &ValueCache) -> (r: Result<
    Substituted,
    ResolutionError,
>)
    ensures
        subst_outcome_matches(subst_spec(v@, *manifest, cache@), r),
    decreases v@.len(),
{
    match find_double_in(v, '{') {
        None => Ok(Substituted::Done(string_from_chars(v))),
        Some(i) => {
            let n = v.len();
            proof {
                lemma_find_double_props(v@, '{');
            }
            let rest = vec_skip(v, i + 2);
            match find_double_in(&rest, '}') {
                None => Err(ResolutionError::MalformedToken),
                Some(j) => {
                    let nr = rest.len();
                    proof {
                        lemma_find_double_props(rest@, '}');
                    }
                    let name_chars = vec_take(&rest, j);
                    let name = string_from_chars(&name_chars);
                    let tail = vec_skip(&rest, j + 2);
                    let value: String = match cache.get(name.as_str()) {
                        Some(cv) => cv.clone(),
                        None => match manifest.value_by_name(name.as_str()) {
                            Some(TemplateValue::Direct(t)) => t.clone(),
                            Some(TemplateValue::User { prompt }) => {
                                return Ok(
                                    Substituted::NeedInput { name, prompt: prompt.clone() },
                                );
                            },
                            None => {
                                return Err(ResolutionError::UnknownValue(name));
                            },
                        },
                    };
                    match subst_chars(&tail, manifest, cache) {
                        Ok(Substituted::Done(out_tail)) => {
                            let prefix = vec_take(v, i);
                            let mut s = string_from_chars(&prefix);
                            s.append(value.as_str());
                            s.append(out_tail.as_str());
                            Ok(Substituted::Done(s))
                        },
                        other => other,
                    }
                },
            }
        },
    }
}

/// Substitutes every `{{name}}` reference in `text` using the manifest's
/// declarations and the run's resolved values. Never mutates the cache: an
/// unanswered prompt is handed back so the caller can ask, record, and run
/// again.
pub fn substitute(text: &str, manifest: &Manifest, cache: &ValueCache) -> (r: Result<
    Substituted,
    ResolutionError,
>)
    ensures
        subst_outcome_matches(subst_spec(text@, *manifest, cache@), r),
{
    let chars = chars_vec(text);
    subst_chars(&chars, manifest, cache)
}

/// A text with no opening marker pair substitutes to itself, under every
/// manifest and every cache.
pub proof fn lemma_token_free_identity(text: Seq<char>, m: Manifest, cache: Seq<(String, String)>)
    requires
        find_double(text, '{') is None,
    ensures
        subst_spec(text, m, cache) == SubstSpec::Done(text),
{
}

/// Substitution asks a prompt only for a name that the manifest declares as
/// a prompt and that has no recorded answer yet.
pub proof fn lemma_prompt_only_unanswered(
    text: Seq<char>,
    m: Manifest,
    cache: Seq<(String, String)>,
    n: Seq<char>,
    p: Seq<char>,
)
    requires
        subst_spec(text, m, cache) == SubstSpec::Prompt(n, p),
    ensures
        assoc_lookup(cache, n) is None,
        assoc_lookup(m.values@, n) matches Some(tv) && tv matches TemplateValue::User { prompt }
            && prompt@ == p,
    decreases text.len(),
{
    lemma_find_double_props(text, '{');
    match find_double(text, '{') {
        None => {},
        Some(i) => {
            let rest = text.skip(i + 2);
            lemma_find_double_props(rest, '}');
            match find_double(rest, '}') {
                None => {},
                Some(j) => {
                    let name = rest.take(j);
                    let tail = rest.skip(j + 2);
                    match resolve_value(m, cache, name) {
                        ResolveSpec::Val(_) => {
                            match subst_spec(tail, m, cache) {
                                SubstSpec::Prompt(a, b) => {
                                    lemma_prompt_only_unanswered(tail, m, cache, a, b);
                                },
                                _ => {},
                            }
                        },
                        ResolveSpec::NeedPrompt(_) => {},
                        ResolveSpec::Undeclared => {},
                    }
                },
            }
        },
    }
}

} // verus!
