//! The deployment engine: walks a template's enumerated source entries,
//! resolves destination paths, substitutes text contents, and applies the
//! conflict policy. It plans every write and reports every entry; carrying
//! the plan out on the file system is the caller's job.

use vstd::prelude::*;
use vstd::string::StringExecFns;
use crate::manifest::{assoc_lookup, Manifest, Template, TemplateValue};
use crate::resolve::{ResolutionError, ValueCache};
use crate::subst::{
    lemma_prompt_only_unanswered, lemma_token_free_identity, subst_spec, substitute, SubstSpec,
    Substituted,
};
use crate::text::find_double;

verus! {

/// What one enumerated source entry is.
#[derive(Debug, PartialEq)]
pub enum EntryKind {
    /// A directory to be created at the destination.
    Directory,
    /// A file whose contents undergo substitution.
    TextFile(String),
    /// A file copied byte for byte, unchanged.
    BinaryFile(Vec<u8>),
}

/// One entry of the enumerated source tree, named by its path relative to
/// the template's source root.
#[derive(Debug, PartialEq)]
pub struct SourceEntry {
    pub rel_path: String,
    pub kind: EntryKind,
}

/// What to do when a planned file already exists at its destination.
#[derive(Clone, Copy, Debug, PartialEq, Eq, Structural)]
pub enum ConflictPolicy {
    /// Fail that entry and continue with the rest: the default.
    Fail,
    /// Write over the existing file.
    Overwrite,
    /// Leave the existing file and report the entry as skipped.
    Skip,
}

/// A failure that aborts the whole deployment before anything is planned.
#[derive(Debug, PartialEq)]
pub enum DeployError {
    /// The template names no source, or its source does not exist.
    SourceNotFound,
}

/// The contents a planned file write carries.
#[derive(Debug, PartialEq)]
pub enum FilePayload {
    Text(String),
    Binary(Vec<u8>),
}

/// What became of one entry.
#[derive(Debug, PartialEq)]
pub enum EntryResult {
    /// The destination directory is to be created (idempotently).
    DirCreated(String),
    /// A file write is planned at this destination with these contents.
    FileWritten(String, FilePayload),
    /// The destination already exists and the skip policy left it alone.
    SkippedExisting(String),
    /// The destination already exists and the fail policy refused the entry.
    Conflict(String),
    /// The entry's path or contents could not be resolved.
    Failed(ResolutionError),
}

/// One report line: an entry and what became of it.
#[derive(Debug, PartialEq)]
pub struct EntryReport {
    pub rel_path: String,
    pub result: EntryResult,
}

/// The full account of a deployment: one line per enumerated entry, in
/// enumeration order.
#[derive(Debug, PartialEq)]
pub struct DeployReport {
    pub entries: Vec<EntryReport>,
}

/// A finished deployment, or the first unanswered prompt, which suspends
/// the walk until the caller records an answer and deploys again.
#[derive(Debug, PartialEq)]
pub enum DeployOutcome {
    Complete(DeployReport),
    NeedInput { name: String, prompt: String },
}

/// How many lines have a write planned.
pub open spec fn count_written(rs: Seq<EntryReport>) -> int
    decreases rs.len(),
{
    if rs.len() == 0 {
        0
    } else {
        count_written(rs.drop_last()) + (if rs.last().result matches EntryResult::FileWritten(
            _,
            _,
        ) {
            1int
        } else {
            0int
        })
    }
}

/// How many lines were skipped on an existing destination.
pub open spec fn count_skipped(rs: Seq<EntryReport>) -> int
    decreases rs.len(),
{
    if rs.len() == 0 {
        0
    } else {
        count_skipped(rs.drop_last()) + (if rs.last().result matches EntryResult::SkippedExisting(
            _,
        ) {
            1int
        } else {
            0int
        })
    }
}

/// How many lines failed: conflicts and resolution failures.
pub open spec fn count_failed(rs: Seq<EntryReport>) -> int
    decreases rs.len(),
{
    if rs.len() == 0 {
        0
    } else {
        count_failed(rs.drop_last()) + (if rs.last().result matches EntryResult::Conflict(_)
            || rs.last().result matches EntryResult::Failed(_) {
            1int
        } else {
            0int
        })
    }
}

impl DeployReport {
    /// How many entries have a write planned.
    pub fn written_count(&self) -> (r: usize)
        ensures
            r == count_written(self.entries@),
    {
        let n = self.entries.len();
        let mut c: usize = 0;
        let mut i: usize = 0;
        while i < n
            invariant
                n == self.entries@.len(),
                i <= n,
                c <= i,
                c == count_written(self.entries@.take(i as int)),
            decreases n - i,
        {
            proof {
                assert(self.entries@.take(i as int + 1).drop_last() =~= self.entries@.take(
                    i as int,
                ));
                assert(self.entries@.take(i as int + 1).last() == self.entries@[i as int]);
            }
            if matches!(self.entries[i].result, EntryResult::FileWritten(_, _)) {
                c = c + 1;
            }
            i = i + 1;
        }
        proof {
            assert(self.entries@.take(n as int) =~= self.entries@);
        }
        c
    }

    /// How many entries were skipped on an existing destination.
    pub fn skipped_count(&self) -> (r: usize)
        ensures
            r == count_skipped(self.entries@),
    {
        let n = self.entries.len();
        let mut c: usize = 0;
        let mut i: usize = 0;
        while i < n
            invariant
                n == self.entries@.len(),
                i <= n,
                c <= i,
                c == count_skipped(self.entries@.take(i as int)),
            decreases n - i,
        {
            proof {
                assert(self.entries@.take(i as int + 1).drop_last() =~= self.entries@.take(
                    i as int,
                ));
                assert(self.entries@.take(i as int + 1).last() == self.entries@[i as int]);
            }
            if matches!(self.entries[i].result, EntryResult::SkippedExisting(_)) {
                c = c + 1;
            }
            i = i + 1;
        }
        proof {
            assert(self.entries@.take(n as int) =~= self.entries@);
        }
        c
    }

    /// How many entries failed: conflicts and resolution failures.
    pub fn failed_count(&self) -> (r: usize)
        ensures
            r == count_failed(self.entries@),
    {
        let n = self.entries.len();
        let mut c: usize = 0;
        let mut i: usize = 0;
        while i < n
            invariant
                n == self.entries@.len(),
                i <= n,
                c <= i,
                c == count_failed(self.entries@.take(i as int)),
            decreases n - i,
        {
            proof {
                assert(self.entries@.take(i as int + 1).drop_last() =~= self.entries@.take(
                    i as int,
                ));
                assert(self.entries@.take(i as int + 1).last() == self.entries@[i as int]);
            }
            if matches!(
                self.entries[i].result,
                EntryResult::Conflict(_) | EntryResult::Failed(_)
            ) {
                c = c + 1;
            }
            i = i + 1;
        }
        proof {
            assert(self.entries@.take(n as int) =~= self.entries@);
        }
        c
    }

    /// A run with any failed entry is not a success, even when the rest of
    /// the entries went through.
    pub fn is_success(&self) -> (r: bool)
        ensures
            r == (count_failed(self.entries@) == 0),
    {
        self.failed_count() == 0
    }
}

/// A per-entry outcome at the specification level.
pub enum EntrySpec {
    Dir(Seq<char>),
    WriteText(Seq<char>, Seq<char>),
    WriteBinary(Seq<char>, Seq<u8>),
    Skip(Seq<char>),
    Clash(Seq<char>),
    FaultUnknown(Seq<char>),
    FaultMalformed,
    Ask(Seq<char>, Seq<char>),
}

/// The walk at the specification level: every entry's outcome in order, or
/// the first prompt that suspends it.
pub enum WalkSpec {
    Finished(Seq<EntrySpec>),
    Suspend(Seq<char>, Seq<char>),
}

/// A path reading as `p` stands among `paths`.
pub open spec fn contains_path(paths: Seq<String>, p: Seq<char>) -> bool {
    exists|i: int| 0 <= i < paths.len() && (#[trigger] paths[i])@ == p
}

/// A destination path: the root joined with a relative path, with a
/// separator unless the root is empty.
pub open spec fn join_path(root: Seq<char>, rel: Seq<char>) -> Seq<char> {
    if root.len() == 0 {
        rel
    } else {
        root + "/"@ + rel
    }
}

/// The destination root: the template's substituted destination, or the
/// caller-supplied default when the template declares none.
pub open spec fn dest_root_spec(
    t: Template,
    m: Manifest,
    cache: Seq<(String, String)>,
    default_dest: Seq<char>,
) -> SubstSpec {
    match t.destination {
        Some(d) => subst_spec(d@, m, cache),
        None => SubstSpec::Done(default_dest),
    }
}

/// The write a file entry's contents become once its destination is
/// settled: text is substituted, binary is carried unchanged.
pub open spec fn content_outcome(
    k: EntryKind,
    dest: Seq<char>,
    m: Manifest,
    cache: Seq<(String, String)>,
) -> EntrySpec {
    match k {
        EntryKind::Directory => EntrySpec::Dir(dest),
        EntryKind::BinaryFile(b) => EntrySpec::WriteBinary(dest, b@),
        EntryKind::TextFile(t) => match subst_spec(t@, m, cache) {
            SubstSpec::Done(c) => EntrySpec::WriteText(dest, c),
            SubstSpec::Prompt(n, p) => EntrySpec::Ask(n, p),
            SubstSpec::Unknown(n) => EntrySpec::FaultUnknown(n),
            SubstSpec::Malformed => EntrySpec::FaultMalformed,
        },
    }
}

/// What one entry becomes: its relative path is substituted and joined to
/// the root; a file meeting an already-existing destination (pre-existing,
/// or written earlier in this walk) goes by the conflict policy; contents
/// are only then considered.
pub open spec fn entry_outcome(
    e: SourceEntry,
    root: Seq<char>,
    m: Manifest,
    cache: Seq<(String, String)>,
    existing: Seq<String>,
    written: Seq<Seq<char>>,
    policy: ConflictPolicy,
) -> EntrySpec {
    match subst_spec(e.rel_path@, m, cache) {
        SubstSpec::Prompt(n, p) => EntrySpec::Ask(n, p),
        SubstSpec::Unknown(n) => EntrySpec::FaultUnknown(n),
        SubstSpec::Malformed => EntrySpec::FaultMalformed,
        SubstSpec::Done(rel) => {
            let dest = join_path(root, rel);
            match e.kind {
                EntryKind::Directory => EntrySpec::Dir(dest),
                _ => {
                    if contains_path(existing, dest) || written.contains(dest) {
                        match policy {
                            ConflictPolicy::Fail => EntrySpec::Clash(dest),
                            ConflictPolicy::Skip => EntrySpec::Skip(dest),
                            ConflictPolicy::Overwrite => content_outcome(e.kind, dest, m, cache),
                        }
                    } else {
                        content_outcome(e.kind, dest, m, cache)
                    }
                },
            }
        },
    }
}

/// The walked-over destination paths after one more outcome.
pub open spec fn written_after(o: EntrySpec, written: Seq<Seq<char>>) -> Seq<Seq<char>> {
    match o {
        EntrySpec::WriteText(d, _) => written.push(d),
        EntrySpec::WriteBinary(d, _) => written.push(d),
        _ => written,
    }
}

/// The walk over the entries, in order, threading the paths written so far.
pub open spec fn walk_spec(
    entries: Seq<SourceEntry>,
    root: Seq<char>,
    m: Manifest,
    cache: Seq<(String, String)>,
    existing: Seq<String>,
    written: Seq<Seq<char>>,
    policy: ConflictPolicy,
) -> WalkSpec
    decreases entries.len(),
{
    if entries.len() == 0 {
        WalkSpec::Finished(Seq::<EntrySpec>::empty())
    } else {
        let o = entry_outcome(entries[0], root, m, cache, existing, written, policy);
        match o {
            EntrySpec::Ask(n, p) => WalkSpec::Suspend(n, p),
            _ => match walk_spec(
                entries.drop_first(),
                root,
                m,
                cache,
                existing,
                written_after(o, written),
                policy,
            ) {
                WalkSpec::Suspend(n, p) => WalkSpec::Suspend(n, p),
                WalkSpec::Finished(rest) => WalkSpec::Finished(seq![o] + rest),
            },
        }
    }
}

/// The whole deployment at the specification level: the destination root is
/// resolved first; a root that cannot be resolved fails every entry, and a
/// root that needs a prompt suspends the walk before it starts.
pub open spec fn deploy_walk(
    template: Template,
    m: Manifest,
    cache: Seq<(String, String)>,
    entries: Seq<SourceEntry>,
    existing: Seq<String>,
    policy: ConflictPolicy,
    default_dest: Seq<char>,
) -> WalkSpec {
    match dest_root_spec(template, m, cache, default_dest) {
        SubstSpec::Done(root) => walk_spec(
            entries,
            root,
            m,
            cache,
            existing,
            Seq::<Seq<char>>::empty(),
            policy,
        ),
        SubstSpec::Prompt(n, p) => WalkSpec::Suspend(n, p),
        SubstSpec::Unknown(n) => WalkSpec::Finished(
            Seq::new(entries.len(), |i: int| EntrySpec::FaultUnknown(n)),
        ),
        SubstSpec::Malformed => WalkSpec::Finished(
            Seq::new(entries.len(), |i: int| EntrySpec::FaultMalformed),
        ),
    }
}

/// The report line states exactly the specification outcome.
pub open spec fn entry_reported(o: EntrySpec, r: EntryReport) -> bool {
    match o {
        EntrySpec::Dir(d) => r.result matches EntryResult::DirCreated(p) && p@ == d,
        EntrySpec::WriteText(d, c) => r.result matches EntryResult::FileWritten(
            p,
            FilePayload::Text(t),
        ) && p@ == d && t@ == c,
        EntrySpec::WriteBinary(d, c) => r.result matches EntryResult::FileWritten(
            p,
            FilePayload::Binary(b),
        ) && p@ == d && b@ == c,
        EntrySpec::Skip(d) => r.result matches EntryResult::SkippedExisting(p) && p@ == d,
        EntrySpec::Clash(d) => r.result matches EntryResult::Conflict(p) && p@ == d,
        EntrySpec::FaultUnknown(n) => r.result matches EntryResult::Failed(
            ResolutionError::UnknownValue(u),
        ) && u@ == n,
        EntrySpec::FaultMalformed => r.result matches EntryResult::Failed(
            ResolutionError::MalformedToken,
        ),
        EntrySpec::Ask(_, _) => false,
    }
}

/// Every line of the report states its entry's outcome, filed under the
/// entry's relative path, in enumeration order.
pub open spec fn report_matches(
    entries: Seq<SourceEntry>,
    os: Seq<EntrySpec>,
    rep: DeployReport,
) -> bool {
    &&& rep.entries@.len() == entries.len()
    &&& os.len() == entries.len()
    &&& forall|i: int|
        0 <= i < entries.len() ==> (#[trigger] rep.entries@[i]).rel_path@ == entries[i].rel_path@
            && entry_reported(os[i], rep.entries@[i])
}

/// The specification-level fault an unresolved reference reports.
pub open spec fn fault_of(e: ResolutionError) -> EntrySpec {
    match e {
        ResolutionError::UnknownValue(u) => EntrySpec::FaultUnknown(u@),
        ResolutionError::MalformedToken => EntrySpec::FaultMalformed,
    }
}

/// Walk progress: the outcomes gathered for the first `k` entries, continued
/// by the walk over the rest, give the whole walk's result.
spec fn walk_continues(
    full: Seq<SourceEntry>,
    k: int,
    done: Seq<EntrySpec>,
    root: Seq<char>,
    m: Manifest,
    cache: Seq<(String, String)>,
    existing: Seq<String>,
    written: Seq<Seq<char>>,
    policy: ConflictPolicy,
) -> bool {
    match walk_spec(full.skip(k), root, m, cache, existing, written, policy) {
        WalkSpec::Suspend(n, p) => walk_spec(
            full,
            root,
            m,
            cache,
            existing,
            Seq::<Seq<char>>::empty(),
            policy,
        ) == WalkSpec::Suspend(n, p),
        WalkSpec::Finished(rest) => walk_spec(
            full,
            root,
            m,
            cache,
            existing,
            Seq::<Seq<char>>::empty(),
            policy,
        ) == WalkSpec::Finished(done + rest),
    }
}

/// Files one failed line per entry, for when the destination root itself
/// cannot be resolved.
fn report_all_failed(es: &Vec<SourceEntry>, e: &ResolutionError) -> (rep: DeployReport)
    ensures
        rep.entries@.len() == es@.len(),
        forall|i: int|
            0 <= i < es@.len() ==> (#[trigger] rep.entries@[i]).rel_path@ == es@[i].rel_path@
                && entry_reported(fault_of(*e), rep.entries@[i]),
{
    let n = es.len();
    let mut lines: Vec<EntryReport> = Vec::new();
    let mut i: usize = 0;
    while i < n
        invariant
            n == es@.len(),
            i <= n,
            lines@.len() == i,
            forall|j: int|
                0 <= j < i ==> (#[trigger] lines@[j]).rel_path@ == es@[j].rel_path@
                    && entry_reported(fault_of(*e), lines@[j]),
        decreases n - i,
    {
        let err = match e {
            ResolutionError::UnknownValue(u) => ResolutionError::UnknownValue(u.clone()),
            ResolutionError::MalformedToken => ResolutionError::MalformedToken,
        };
        lines.push(
            EntryReport { rel_path: es[i].rel_path.clone(), result: EntryResult::Failed(err) },
        );
        i = i + 1;
    }
    DeployReport { entries: lines }
}

/// Whether any of `paths` reads as `p`.
fn contains_str(paths: &Vec<String>, p: &str) -> (r: bool)
    ensures
        r == contains_path(paths@, p@),
{
    let key: String = p.to_owned();
    let n = paths.len();
    let mut i: usize = 0;
    while i < n
        invariant
            n == paths@.len(),
            i <= n,
            key@ == p@,
            forall|k: int| 0 <= k < i ==> (#[trigger] paths@[k])@ != p@,
        decreases n - i,
    {
        if paths[i] == key {
            return true;
        }
        i = i + 1;
    }
    false
}

/// Joins the destination root and a relative path.
fn join_dest(root: &str, rel: &str) -> (r: String)
    ensures
        r@ == join_path(root@, rel@),
{
    if root.is_empty() {
        rel.to_owned()
    } else {
        let s: String = root.to_owned();
        let s2: String = s.concat("/");
        s2.concat(rel)
    }
}

/// Deploys one template: walks the enumerated source entries in the given
/// (stable) order, substitutes each destination path and each text file's
/// contents, and applies the conflict policy against the pre-deployment
/// destination snapshot and the files written earlier in the same walk.
///
/// A missing source is fatal and nothing is planned. A per-entry failure is
/// recorded in its report line and the walk continues. The first unanswered
/// prompt suspends the walk: the caller asks the question, records the
/// answer in the cache, and deploys again.
#[verifier::loop_isolation(false)]
pub fn deploy(
    template: &Template,
    manifest: &Manifest,
    source: Option<&Vec<SourceEntry>>,
    existing: &Vec<String>,
    policy: ConflictPolicy,
    default_dest: &str,
    cache: &ValueCache,
) -> (r: Result<DeployOutcome, DeployError>)
    ensures
        match r {
            Err(DeployError::SourceNotFound) => template.source is None || source is None,
            Ok(DeployOutcome::NeedInput { name, prompt }) => {
                &&& template.source is Some
                &&& source matches Some(es) && deploy_walk(
                    *template,
                    *manifest,
                    cache@,
                    es@,
                    existing@,
                    policy,
                    default_dest@,
                ) == WalkSpec::Suspend(name@, prompt@)
            },
            Ok(DeployOutcome::Complete(rep)) => {
                &&& template.source is Some
                &&& source matches Some(es) && deploy_walk(
                    *template,
                    *manifest,
                    cache@,
                    es@,
                    existing@,
                    policy,
                    default_dest@,
                ) matches WalkSpec::Finished(os) && report_matches(es@, os, rep)
            },
        },
{
    if template.source.is_none() {
        return Err(DeployError::SourceNotFound);
    }
    let es: &Vec<SourceEntry> = match source {
        Some(es) => es,
        None => {
            return Err(DeployError::SourceNotFound);
        },
    };

    let root: String = match &template.destination {
        Some(d) => match substitute(d.as_str(), manifest, cache) {
            Ok(Substituted::Done(s)) => s,
            Ok(Substituted::NeedInput { name, prompt }) => {
                return Ok(DeployOutcome::NeedInput { name, prompt });
            },
            Err(e) => {
                let rep = report_all_failed(es, &e);
                proof {
                    match dest_root_spec(*template, *manifest, cache@, default_dest@) {
                        SubstSpec::Unknown(nm) => {
                            let os = Seq::new(es@.len(), |i: int| EntrySpec::FaultUnknown(nm));
                            assert(deploy_walk(
                                *template,
                                *manifest,
                                cache@,
                                es@,
                                existing@,
                                policy,
                                default_dest@,
                            ) == WalkSpec::Finished(os));
                            assert(report_matches(es@, os, rep));
                        },
                        SubstSpec::Malformed => {
                            let os = Seq::new(es@.len(), |i: int| EntrySpec::FaultMalformed);
                            assert(deploy_walk(
                                *template,
                                *manifest,
                                cache@,
                                es@,
                                existing@,
                                policy,
                                default_dest@,
                            ) == WalkSpec::Finished(os));
                            assert(report_matches(es@, os, rep));
                        },
                        _ => {
                            assert(false);
                        },
                    }
                }
                return Ok(DeployOutcome::Complete(rep));
            },
        },
        None => default_dest.to_owned(),
    };
    proof {
        assert(dest_root_spec(*template, *manifest, cache@, default_dest@) == SubstSpec::Done(
            root@,
        ));
    }

    let n = es.len();
    let mut lines: Vec<EntryReport> = Vec::new();
    let mut written: Vec<String> = Vec::new();
    let ghost mut outcomes: Seq<EntrySpec> = Seq::<EntrySpec>::empty();
    let ghost mut wseq: Seq<Seq<char>> = Seq::<Seq<char>>::empty();
    let mut i: usize = 0;
    proof {
        assert(es@.skip(0) =~= es@);
        match walk_spec(es@, root@, *manifest, cache@, existing@, Seq::<Seq<char>>::empty(), policy) {
            WalkSpec::Finished(rest) => {
                assert(Seq::<EntrySpec>::empty() + rest =~= rest);
            },
            _ => {},
        }
    }
    while i < n
        invariant
            i <= n,
            n == es@.len(),
            lines@.len() == i,
            outcomes.len() == i,
            forall|j: int|
                0 <= j < i ==> (#[trigger] lines@[j]).rel_path@ == es@[j].rel_path@
                    && entry_reported(outcomes[j], lines@[j]),
            written@.len() == wseq.len(),
            forall|k: int| 0 <= k < wseq.len() ==> (#[trigger] written@[k])@ == wseq[k],
            walk_continues(es@, i as int, outcomes, root@, *manifest, cache@, existing@, wseq, policy),
        decreases n - i,
    {
        proof {
            assert(es@.skip(i as int)[0] == es@[i as int]);
            assert(es@.skip(i as int).drop_first() =~= es@.skip(i as int + 1));
        }
        let ghost wseq0 = wseq;
        let ghost o_spec = entry_outcome(
            es@[i as int],
            root@,
            *manifest,
            cache@,
            existing@,
            wseq,
            policy,
        );
        let entry = &es[i];
        let line: EntryReport = match substitute(entry.rel_path.as_str(), manifest, cache) {
            Ok(Substituted::NeedInput { name, prompt }) => {
                proof {
                    assert(o_spec == EntrySpec::Ask(name@, prompt@));
                    assert(walk_spec(
                        es@.skip(i as int),
                        root@,
                        *manifest,
                        cache@,
                        existing@,
                        wseq,
                        policy,
                    ) == WalkSpec::Suspend(name@, prompt@));
                }
                return Ok(DeployOutcome::NeedInput { name, prompt });
            },
            Err(e2) => {
                proof {
                    assert(o_spec == fault_of(e2));
                }
                EntryReport { rel_path: entry.rel_path.clone(), result: EntryResult::Failed(e2) }
            },
            Ok(Substituted::Done(rel)) => {
                let dest = join_dest(root.as_str(), rel.as_str());
                match &entry.kind {
                    EntryKind::Directory => {
                        proof {
                            assert(o_spec == EntrySpec::Dir(dest@));
                        }
                        EntryReport {
                            rel_path: entry.rel_path.clone(),
                            result: EntryResult::DirCreated(dest),
                        }
                    },
                    EntryKind::TextFile(t) => {
                        let conflicted = contains_str(existing, dest.as_str()) || contains_str(
                            &written,
                            dest.as_str(),
                        );
                        proof {
                            if contains_path(written@, dest@) {
                                let k = choose|k: int|
                                    0 <= k < written@.len() && (#[trigger] written@[k])@ == dest@;
                                assert(wseq[k] == dest@);
                            }
                            if wseq.contains(dest@) {
                                let k = choose|k: int| 0 <= k < wseq.len() && wseq[k] == dest@;
                                assert((written@[k])@ == dest@);
                            }
                            assert(conflicted == (contains_path(existing@, dest@) || wseq.contains(
                                dest@,
                            )));
                        }
                        let proceed = !conflicted || matches!(policy, ConflictPolicy::Overwrite);
                        if !proceed {
                            if matches!(policy, ConflictPolicy::Fail) {
                                proof {
                                    assert(o_spec == EntrySpec::Clash(dest@));
                                }
                                EntryReport {
                                    rel_path: entry.rel_path.clone(),
                                    result: EntryResult::Conflict(dest),
                                }
                            } else {
                                proof {
                                    assert(o_spec == EntrySpec::Skip(dest@));
                                }
                                EntryReport {
                                    rel_path: entry.rel_path.clone(),
                                    result: EntryResult::SkippedExisting(dest),
                                }
                            }
                        } else {
                            match substitute(t.as_str(), manifest, cache) {
                                Ok(Substituted::Done(c)) => {
                                    proof {
                                        assert(o_spec == EntrySpec::WriteText(dest@, c@));
                                    }
                                    written.push(dest.clone());
                                    EntryReport {
                                        rel_path: entry.rel_path.clone(),
                                        result: EntryResult::FileWritten(
                                            dest,
                                            FilePayload::Text(c),
                                        ),
                                    }
                                },
                                Ok(Substituted::NeedInput { name, prompt }) => {
                                    proof {
                                        assert(o_spec == EntrySpec::Ask(name@, prompt@));
                                        assert(walk_spec(
                                            es@.skip(i as int),
                                            root@,
                                            *manifest,
                                            cache@,
                                            existing@,
                                            wseq,
                                            policy,
                                        ) == WalkSpec::Suspend(name@, prompt@));
                                    }
                                    return Ok(DeployOutcome::NeedInput { name, prompt });
                                },
                                Err(e2) => {
                                    proof {
                                        assert(o_spec == fault_of(e2));
                                    }
                                    EntryReport {
                                        rel_path: entry.rel_path.clone(),
                                        result: EntryResult::Failed(e2),
                                    }
                                },
                            }
                        }
                    },
                    EntryKind::BinaryFile(b) => {
                        let conflicted = contains_str(existing, dest.as_str()) || contains_str(
                            &written,
                            dest.as_str(),
                        );
                        proof {
                            if contains_path(written@, dest@) {
                                let k = choose|k: int|
                                    0 <= k < written@.len() && (#[trigger] written@[k])@ == dest@;
                                assert(wseq[k] == dest@);
                            }
                            if wseq.contains(dest@) {
                                let k = choose|k: int| 0 <= k < wseq.len() && wseq[k] == dest@;
                                assert((written@[k])@ == dest@);
                            }
                            assert(conflicted == (contains_path(existing@, dest@) || wseq.contains(
                                dest@,
                            )));
                        }
                        let proceed = !conflicted || matches!(policy, ConflictPolicy::Overwrite);
                        if !proceed {
                            if matches!(policy, ConflictPolicy::Fail) {
                                proof {
                                    assert(o_spec == EntrySpec::Clash(dest@));
                                }
                                EntryReport {
                                    rel_path: entry.rel_path.clone(),
                                    result: EntryResult::Conflict(dest),
                                }
                            } else {
                                proof {
                                    assert(o_spec == EntrySpec::Skip(dest@));
                                }
                                EntryReport {
                                    rel_path: entry.rel_path.clone(),
                                    result: EntryResult::SkippedExisting(dest),
                                }
                            }
                        } else {
                            let payload = copy_bytes(b);
                            proof {
                                assert(o_spec == EntrySpec::WriteBinary(dest@, payload@));
                            }
                            written.push(dest.clone());
                            EntryReport {
                                rel_path: entry.rel_path.clone(),
                                result: EntryResult::FileWritten(
                                    dest,
                                    FilePayload::Binary(payload),
                                ),
                            }
                        }
                    },
                }
            },
        };
        lines.push(line);
        proof {
            assert(entry_reported(o_spec, lines@.last()));
            let outcomes0 = outcomes;
            outcomes = outcomes.push(o_spec);
            wseq = written_after(o_spec, wseq0);
            assert(walk_continues(
                es@,
                i as int + 1,
                outcomes,
                root@,
                *manifest,
                cache@,
                existing@,
                wseq,
                policy,
            )) by {
                assert(entry_outcome(
                    es@.skip(i as int)[0],
                    root@,
                    *manifest,
                    cache@,
                    existing@,
                    wseq0,
                    policy,
                ) == o_spec);
                match walk_spec(
                    es@.skip(i as int + 1),
                    root@,
                    *manifest,
                    cache@,
                    existing@,
                    wseq,
                    policy,
                ) {
                    WalkSpec::Suspend(nm, p) => {},
                    WalkSpec::Finished(rest) => {
                        assert(outcomes0.push(o_spec) + rest =~= outcomes0 + (seq![o_spec]
                            + rest));
                    },
                }
            }
        }
        i = i + 1;
    }
    proof {
        assert(es@.skip(n as int).len() == 0);
        assert(outcomes + Seq::<EntrySpec>::empty() =~= outcomes);
        assert(walk_spec(
            es@,
            root@,
            *manifest,
            cache@,
            existing@,
            Seq::<Seq<char>>::empty(),
            policy,
        ) == WalkSpec::Finished(outcomes));
    }
    let rep = DeployReport { entries: lines };
    proof {
        assert(report_matches(es@, outcomes, rep));
    }
    Ok(DeployOutcome::Complete(rep))
}

/// A byte-for-byte copy.
fn copy_bytes(b: &Vec<u8>) -> (r: Vec<u8>)
    ensures
        r@ == b@,
{
    let n = b.len();
    let mut r: Vec<u8> = Vec::new();
    let mut i: usize = 0;
    while i < n
        invariant
            n == b@.len(),
            i <= n,
            r@ == b@.take(i as int),
        decreases n - i,
    {
        r.push(b[i]);
        proof {
            assert(b@.take(i as int).push(b@[i as int]) =~= b@.take(i as int + 1));
        }
        i = i + 1;
    }
    proof {
        assert(b@.take(n as int) =~= b@);
    }
    r
}

/// What a marker-free entry becomes on a fresh destination: its own path
/// and, for files, its own contents, unchanged.
pub open spec fn round_trip_line(e: SourceEntry, root: Seq<char>) -> EntrySpec {
    match e.kind {
        EntryKind::Directory => EntrySpec::Dir(join_path(root, e.rel_path@)),
        EntryKind::TextFile(t) => EntrySpec::WriteText(join_path(root, e.rel_path@), t@),
        EntryKind::BinaryFile(b) => EntrySpec::WriteBinary(join_path(root, e.rel_path@), b@),
    }
}

/// Concatenation after a shared prefix cancels: equal results mean equal
/// suffixes.
proof fn lemma_concat_cancel(p: Seq<char>, a: Seq<char>, b: Seq<char>)
    requires
        p + a == p + b,
    ensures
        a == b,
{
    assert(a =~= (p + a).subrange(p.len() as int, (p + a).len() as int));
    assert(b =~= (p + b).subrange(p.len() as int, (p + b).len() as int));
}

/// Joining one root to two different relative paths gives different paths.
proof fn lemma_join_injective(root: Seq<char>, a: Seq<char>, b: Seq<char>)
    requires
        a != b,
    ensures
        join_path(root, a) != join_path(root, b),
{
    if root.len() != 0 {
        if join_path(root, a) == join_path(root, b) {
            lemma_concat_cancel(root + "/"@, a, b);
        }
    }
}

/// Round trip: deploying a source tree that holds no opening marker onto a
/// fresh destination copies the tree as it stands — every entry plans its
/// own relative path under the root and every file carries its contents
/// unchanged, path for path and byte for byte.
pub proof fn lemma_round_trip(
    entries: Seq<SourceEntry>,
    root: Seq<char>,
    m: Manifest,
    cache: Seq<(String, String)>,
    existing: Seq<String>,
    written: Seq<Seq<char>>,
    policy: ConflictPolicy,
)
    requires
        forall|i: int|
            0 <= i < entries.len() ==> find_double(
                (#[trigger] entries[i]).rel_path@,
                '{',
            ) is None,
        forall|i: int|
            0 <= i < entries.len() ==> match (#[trigger] entries[i]).kind {
                EntryKind::TextFile(t) => find_double(t@, '{') is None,
                _ => true,
            },
        existing.len() == 0,
        forall|i: int|
            0 <= i < entries.len() ==> !written.contains(
                join_path(root, (#[trigger] entries[i]).rel_path@),
            ),
        forall|i: int, j: int|
            0 <= i < j < entries.len() ==> (#[trigger] entries[i]).rel_path@
                != (#[trigger] entries[j]).rel_path@,
    ensures
        walk_spec(entries, root, m, cache, existing, written, policy) matches WalkSpec::Finished(
            os,
        ) && os.len() == entries.len() && forall|i: int|
            0 <= i < entries.len() ==> os[i] == round_trip_line(entries[i], root),
    decreases entries.len(),
{
    if entries.len() > 0 {
        let e0 = entries[0];
        lemma_token_free_identity(e0.rel_path@, m, cache);
        match e0.kind {
            EntryKind::TextFile(t) => {
                lemma_token_free_identity(t@, m, cache);
            },
            _ => {},
        }
        let o = round_trip_line(e0, root);
        assert(entry_outcome(e0, root, m, cache, existing, written, policy) == o);
        let written2 = written_after(o, written);
        let tail = entries.drop_first();
        assert forall|i: int| 0 <= i < tail.len() implies find_double(
            (#[trigger] tail[i]).rel_path@,
            '{',
        ) is None && match tail[i].kind {
            EntryKind::TextFile(t) => find_double(t@, '{') is None,
            _ => true,
        } by {
            assert(tail[i] == entries[i + 1]);
        }
        assert forall|i: int, j: int| 0 <= i < j < tail.len() implies (#[trigger] tail[i]).rel_path@
            != (#[trigger] tail[j]).rel_path@ by {
            assert(tail[i] == entries[i + 1]);
            assert(tail[j] == entries[j + 1]);
        }
        assert forall|i: int| 0 <= i < tail.len() implies !written2.contains(
            join_path(root, (#[trigger] tail[i]).rel_path@),
        ) by {
            assert(tail[i] == entries[i + 1]);
            let d = join_path(root, entries[i + 1].rel_path@);
            if written2.contains(d) {
                let k = choose|k: int| 0 <= k < written2.len() && written2[k] == d;
                if k < written.len() {
                    assert(written.contains(d));
                } else {
                    assert(written2[k] == join_path(root, e0.rel_path@));
                    lemma_join_injective(root, e0.rel_path@, entries[i + 1].rel_path@);
                }
            }
        }
        lemma_round_trip(tail, root, m, cache, existing, written2, policy);
        match walk_spec(tail, root, m, cache, existing, written2, policy) {
            WalkSpec::Finished(rest) => {
                let os = seq![o] + rest;
                assert(walk_spec(entries, root, m, cache, existing, written, policy)
                    == WalkSpec::Finished(os));
                assert forall|i: int| 0 <= i < entries.len() implies os[i] == round_trip_line(
                    entries[i],
                    root,
                ) by {
                    if i > 0 {
                        assert(os[i] == rest[i - 1]);
                        assert(tail[i - 1] == entries[i]);
                    }
                }
            },
            _ => {
                assert(false);
            },
        }
    }
}

/// This entry's output already fully exists at the destination.
pub open spec fn entry_already_deployed(
    e: SourceEntry,
    root: Seq<char>,
    m: Manifest,
    cache: Seq<(String, String)>,
    existing: Seq<String>,
) -> bool {
    match subst_spec(e.rel_path@, m, cache) {
        SubstSpec::Done(rel) => match e.kind {
            EntryKind::Directory => true,
            _ => contains_path(existing, join_path(root, rel)),
        },
        _ => false,
    }
}

/// What a re-run over an already-deployed entry reports under the skip
/// policy: its directory ensured again, or a skip. The fallback arm is
/// never reached for an already-deployed entry.
pub open spec fn skip_line(
    e: SourceEntry,
    root: Seq<char>,
    m: Manifest,
    cache: Seq<(String, String)>,
) -> EntrySpec {
    match subst_spec(e.rel_path@, m, cache) {
        SubstSpec::Done(rel) => match e.kind {
            EntryKind::Directory => EntrySpec::Dir(join_path(root, rel)),
            _ => EntrySpec::Skip(join_path(root, rel)),
        },
        _ => EntrySpec::FaultMalformed,
    }
}

/// Idempotence: re-running a deployment against a destination that already
/// fully matches its output, under the skip policy, reports every file as
/// skipped, ensures every directory idempotently, and plans no write at
/// all.
pub proof fn lemma_skip_idempotent(
    entries: Seq<SourceEntry>,
    root: Seq<char>,
    m: Manifest,
    cache: Seq<(String, String)>,
    existing: Seq<String>,
    written: Seq<Seq<char>>,
)
    requires
        forall|i: int|
            0 <= i < entries.len() ==> entry_already_deployed(
                #[trigger] entries[i],
                root,
                m,
                cache,
                existing,
            ),
    ensures
        walk_spec(entries, root, m, cache, existing, written, ConflictPolicy::Skip)
            matches WalkSpec::Finished(os) && os.len() == entries.len() && (forall|i: int|
            0 <= i < entries.len() ==> os[i] == skip_line(entries[i], root, m, cache)) && (forall|
            i: int,
        |
            0 <= i < os.len() ==> !((#[trigger] os[i]) matches EntrySpec::WriteText(_, _)) && !(
            os[i] matches EntrySpec::WriteBinary(_, _))),
    decreases entries.len(),
{
    if entries.len() > 0 {
        let e0 = entries[0];
        let o = skip_line(e0, root, m, cache);
        assert(entry_already_deployed(e0, root, m, cache, existing));
        assert(entry_outcome(e0, root, m, cache, existing, written, ConflictPolicy::Skip) == o);
        assert(written_after(o, written) == written);
        let tail = entries.drop_first();
        assert forall|i: int| 0 <= i < tail.len() implies entry_already_deployed(
            #[trigger] tail[i],
            root,
            m,
            cache,
            existing,
        ) by {
            assert(tail[i] == entries[i + 1]);
        }
        lemma_skip_idempotent(tail, root, m, cache, existing, written);
        match walk_spec(tail, root, m, cache, existing, written, ConflictPolicy::Skip) {
            WalkSpec::Finished(rest) => {
                let os = seq![o] + rest;
                assert(walk_spec(entries, root, m, cache, existing, written, ConflictPolicy::Skip)
                    == WalkSpec::Finished(os));
                assert forall|i: int| 0 <= i < entries.len() implies os[i] == skip_line(
                    entries[i],
                    root,
                    m,
                    cache,
                ) by {
                    if i > 0 {
                        assert(os[i] == rest[i - 1]);
                        assert(tail[i - 1] == entries[i]);
                    }
                }
            },
            _ => {
                assert(false);
            },
        }
    }
}

/// A suspended walk asks only for a name that the manifest declares as a
/// prompt and that has no recorded answer yet.
proof fn lemma_walk_asks_only_unanswered(
    entries: Seq<SourceEntry>,
    root: Seq<char>,
    m: Manifest,
    cache: Seq<(String, String)>,
    existing: Seq<String>,
    written: Seq<Seq<char>>,
    policy: ConflictPolicy,
    n: Seq<char>,
    p: Seq<char>,
)
    requires
        walk_spec(entries, root, m, cache, existing, written, policy) == WalkSpec::Suspend(n, p),
    ensures
        assoc_lookup(cache, n) is None,
        assoc_lookup(m.values@, n) matches Some(tv) && tv matches TemplateValue::User { prompt }
            && prompt@ == p,
    decreases entries.len(),
{
    let e0 = entries[0];
    let o = entry_outcome(e0, root, m, cache, existing, written, policy);
    match o {
        EntrySpec::Ask(a, b) => {
            match subst_spec(e0.rel_path@, m, cache) {
                SubstSpec::Prompt(a2, b2) => {
                    lemma_prompt_only_unanswered(e0.rel_path@, m, cache, a2, b2);
                },
                SubstSpec::Done(_) => {
                    match e0.kind {
                        EntryKind::TextFile(t) => {
                            match subst_spec(t@, m, cache) {
                                SubstSpec::Prompt(a2, b2) => {
                                    lemma_prompt_only_unanswered(t@, m, cache, a2, b2);
                                },
                                _ => {},
                            }
                        },
                        _ => {},
                    }
                },
                _ => {},
            }
        },
        _ => {
            lemma_walk_asks_only_unanswered(
                entries.drop_first(),
                root,
                m,
                cache,
                existing,
                written_after(o, written),
                policy,
                n,
                p,
            );
        },
    }
}

/// A deployment suspends only for a name that the manifest declares as a
/// prompt and that has no recorded answer yet — so once the caller records
/// the answer, that question is never asked again within the run, however
/// many times the name is referenced.
pub proof fn lemma_deploy_asks_only_unanswered(
    template: Template,
    m: Manifest,
    cache: Seq<(String, String)>,
    entries: Seq<SourceEntry>,
    existing: Seq<String>,
    policy: ConflictPolicy,
    default_dest: Seq<char>,
    n: Seq<char>,
    p: Seq<char>,
)
    requires
        deploy_walk(template, m, cache, entries, existing, policy, default_dest)
            == WalkSpec::Suspend(n, p),
    ensures
        assoc_lookup(cache, n) is None,
        assoc_lookup(m.values@, n) matches Some(tv) && tv matches TemplateValue::User { prompt }
            && prompt@ == p,
{
    match dest_root_spec(template, m, cache, default_dest) {
        SubstSpec::Done(root) => {
            lemma_walk_asks_only_unanswered(
                entries,
                root,
                m,
                cache,
                existing,
                Seq::<Seq<char>>::empty(),
                policy,
                n,
                p,
            );
        },
        SubstSpec::Prompt(_, _) => {
            match template.destination {
                Some(d) => {
                    lemma_prompt_only_unanswered(d@, m, cache, n, p);
                },
                None => {},
            }
        },
        _ => {},
    }
}

/// A finished walk reports exactly one outcome per entry.
pub proof fn lemma_walk_len(
    entries: Seq<SourceEntry>,
    root: Seq<char>,
    m: Manifest,
    cache: Seq<(String, String)>,
    existing: Seq<String>,
    written: Seq<Seq<char>>,
    policy: ConflictPolicy,
)
    ensures
        walk_spec(entries, root, m, cache, existing, written, policy) matches WalkSpec::Finished(
            os,
        ) ==> os.len() == entries.len(),
    decreases entries.len(),
{
    if entries.len() > 0 {
        let o = entry_outcome(entries[0], root, m, cache, existing, written, policy);
        lemma_walk_len(
            entries.drop_first(),
            root,
            m,
            cache,
            existing,
            written_after(o, written),
            policy,
        );
    }
}

/// Malformed tokens stop output: an entry whose relative path or text
/// contents hold an unterminated marker never has a write planned — its
/// line is the malformed-token failure, unless the conflict policy refused
/// or skipped its destination first.
pub proof fn lemma_malformed_never_written(
    entries: Seq<SourceEntry>,
    root: Seq<char>,
    m: Manifest,
    cache: Seq<(String, String)>,
    existing: Seq<String>,
    written: Seq<Seq<char>>,
    policy: ConflictPolicy,
    os: Seq<EntrySpec>,
    i: int,
)
    requires
        walk_spec(entries, root, m, cache, existing, written, policy) == WalkSpec::Finished(os),
        0 <= i < entries.len(),
        subst_spec(entries[i].rel_path@, m, cache) == SubstSpec::Malformed || ((subst_spec(
            entries[i].rel_path@,
            m,
            cache,
        ) matches SubstSpec::Done(_)) && (entries[i].kind matches EntryKind::TextFile(t)
            && subst_spec(t@, m, cache) == SubstSpec::Malformed)),
    ensures
        !(os[i] matches EntrySpec::WriteText(_, _)),
        !(os[i] matches EntrySpec::WriteBinary(_, _)),
        os[i] matches EntrySpec::FaultMalformed || os[i] matches EntrySpec::Clash(_) || os[i]
            matches EntrySpec::Skip(_),
    decreases entries.len(),
{
    let o = entry_outcome(entries[0], root, m, cache, existing, written, policy);
    lemma_walk_len(entries, root, m, cache, existing, written, policy);
    match walk_spec(
        entries.drop_first(),
        root,
        m,
        cache,
        existing,
        written_after(o, written),
        policy,
    ) {
        WalkSpec::Finished(rest) => {
            assert(os == seq![o] + rest);
            if i == 0 {
                assert(os[0] == o);
            } else {
                assert(seq![o].len() == 1);
                assert(os.len() == 1 + rest.len());
                assert(entries.drop_first()[i - 1] == entries[i]);
                lemma_malformed_never_written(
                    entries.drop_first(),
                    root,
                    m,
                    cache,
                    existing,
                    written_after(o, written),
                    policy,
                    rest,
                    i - 1,
                );
                assert((seq![o] + rest)[i] == rest[i - 1]);
                assert(os[i] == rest[i - 1]);
            }
        },
        _ => {},
    }
}

} // verus!
