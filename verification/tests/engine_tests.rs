use clicker::deploy::{
    deploy, ConflictPolicy, DeployError, DeployOutcome, DeployReport, EntryKind, EntryResult,
    FilePayload, SourceEntry,
};
use clicker::manifest::{Manifest, Template, TemplateValue};
use clicker::resolve::{resolve, Resolution, ResolutionError, ValueCache};
use clicker::subst::{substitute, Substituted};

fn manifest_with(values: Vec<(&str, TemplateValue)>) -> Manifest {
    Manifest {
        base_path: String::new(),
        values: values
            .into_iter()
            .map(|(k, v)| (k.to_string(), v))
            .collect(),
        templates: Vec::new(),
    }
}

fn demo_template(destination: Option<&str>) -> Template {
    Template {
        base_path: String::new(),
        name: "demo".to_string(),
        source: Some("tpl".to_string()),
        destination: destination.map(|d| d.to_string()),
    }
}

/// Runs a deployment to completion, answering every prompt with `answer`
/// and counting how many times each question was asked.
fn drive_deploy(
    template: &Template,
    manifest: &Manifest,
    entries: &Vec<SourceEntry>,
    existing: &Vec<String>,
    policy: ConflictPolicy,
    default_dest: &str,
    cache: &mut ValueCache,
    answer: &str,
    prompts: &mut Vec<String>,
) -> DeployReport {
    loop {
        match deploy(
            template,
            manifest,
            Some(entries),
            existing,
            policy,
            default_dest,
            cache,
        )
        .unwrap()
        {
            DeployOutcome::Complete(report) => return report,
            DeployOutcome::NeedInput { name, prompt } => {
                prompts.push(prompt);
                cache.record(&name, answer.to_string());
            }
        }
    }
}

#[test]
fn direct_value_resolves_twice_without_prompt() {
    let manifest = manifest_with(vec![("greeting", TemplateValue::Direct("hi".to_string()))]);
    let mut cache = ValueCache::new();

    let first = resolve(&manifest, "greeting", &mut cache).unwrap();
    assert_eq!(first, Resolution::Done("hi".to_string()));

    let second = resolve(&manifest, "greeting", &mut cache).unwrap();
    assert_eq!(second, Resolution::Done("hi".to_string()));
}

#[test]
fn prompt_is_issued_once_and_answer_reused() {
    let manifest = manifest_with(vec![(
        "ans",
        TemplateValue::User {
            prompt: "Pick something".to_string(),
        },
    )]);
    let mut cache = ValueCache::new();

    let first = resolve(&manifest, "ans", &mut cache).unwrap();
    assert_eq!(first, Resolution::Prompt("Pick something".to_string()));

    cache.record("ans", "42".to_string());

    let second = resolve(&manifest, "ans", &mut cache).unwrap();
    assert_eq!(second, Resolution::Done("42".to_string()));
    let third = resolve(&manifest, "ans", &mut cache).unwrap();
    assert_eq!(third, Resolution::Done("42".to_string()));
}

#[test]
fn unknown_value_is_an_error() {
    let manifest = manifest_with(Vec::new());
    let mut cache = ValueCache::new();
    assert_eq!(
        resolve(&manifest, "nope", &mut cache),
        Err(ResolutionError::UnknownValue("nope".to_string()))
    );
}

#[test]
fn substitute_replaces_each_reference() {
    let manifest = manifest_with(vec![
        ("greeting", TemplateValue::Direct("hi".to_string())),
        ("who", TemplateValue::Direct("you".to_string())),
    ]);
    let cache = ValueCache::new();
    let out = substitute("Say {{greeting}} to {{who}}!", &manifest, &cache).unwrap();
    assert_eq!(out, Substituted::Done("Say hi to you!".to_string()));
}

#[test]
fn substitute_leaves_plain_text_alone() {
    let manifest = manifest_with(Vec::new());
    let cache = ValueCache::new();
    let out = substitute("no tokens here, just } and { alone", &manifest, &cache).unwrap();
    assert_eq!(
        out,
        Substituted::Done("no tokens here, just } and { alone".to_string())
    );
}

#[test]
fn substitute_reports_unknown_reference() {
    let manifest = manifest_with(Vec::new());
    let cache = ValueCache::new();
    assert_eq!(
        substitute("hello {{nobody}}", &manifest, &cache),
        Err(ResolutionError::UnknownValue("nobody".to_string()))
    );
}

#[test]
fn substitute_rejects_unterminated_token() {
    let manifest = manifest_with(vec![("a", TemplateValue::Direct("x".to_string()))]);
    let cache = ValueCache::new();
    assert_eq!(
        substitute("start {{a}} then {{oops", &manifest, &cache),
        Err(ResolutionError::MalformedToken)
    );
}

#[test]
fn substitute_asks_for_unanswered_prompt() {
    let manifest = manifest_with(vec![(
        "ans",
        TemplateValue::User {
            prompt: "Pick".to_string(),
        },
    )]);
    let mut cache = ValueCache::new();
    let out = substitute("{{ans}} and {{ans}}", &manifest, &cache).unwrap();
    assert_eq!(
        out,
        Substituted::NeedInput {
            name: "ans".to_string(),
            prompt: "Pick".to_string(),
        }
    );
    cache.record("ans", "7".to_string());
    let out = substitute("{{ans}} and {{ans}}", &manifest, &cache).unwrap();
    assert_eq!(out, Substituted::Done("7 and 7".to_string()));
}

#[test]
fn substitute_handles_adjacent_references() {
    let manifest = manifest_with(vec![
        ("a", TemplateValue::Direct("1".to_string())),
        ("b", TemplateValue::Direct("2".to_string())),
    ]);
    let cache = ValueCache::new();
    let out = substitute("{{a}}{{b}}", &manifest, &cache).unwrap();
    assert_eq!(out, Substituted::Done("12".to_string()));
}

#[test]
fn substitute_rejects_empty_reference_name() {
    let manifest = manifest_with(Vec::new());
    let cache = ValueCache::new();
    assert_eq!(
        substitute("x{{}}y", &manifest, &cache),
        Err(ResolutionError::UnknownValue(String::new()))
    );
}

#[test]
fn deploy_empty_source_tree_completes_empty() {
    let manifest = manifest_with(Vec::new());
    let template = demo_template(Some("out"));
    let entries: Vec<SourceEntry> = Vec::new();
    let existing: Vec<String> = Vec::new();
    let cache = ValueCache::new();

    match deploy(
        &template,
        &manifest,
        Some(&entries),
        &existing,
        ConflictPolicy::Fail,
        ".",
        &cache,
    )
    .unwrap()
    {
        DeployOutcome::Complete(report) => {
            assert!(report.entries.is_empty());
            assert!(report.is_success());
            assert_eq!(report.written_count(), 0);
            assert_eq!(report.skipped_count(), 0);
        }
        other => panic!("unexpected outcome: {:?}", other),
    }
}

#[test]
fn deploy_malformed_destination_path_fails_that_entry() {
    let manifest = manifest_with(Vec::new());
    let template = demo_template(Some("out"));
    let entries = vec![
        SourceEntry {
            rel_path: "{{broken.txt".to_string(),
            kind: EntryKind::TextFile("text".to_string()),
        },
        SourceEntry {
            rel_path: "ok.txt".to_string(),
            kind: EntryKind::TextFile("text".to_string()),
        },
    ];
    let existing: Vec<String> = Vec::new();
    let cache = ValueCache::new();

    match deploy(
        &template,
        &manifest,
        Some(&entries),
        &existing,
        ConflictPolicy::Fail,
        ".",
        &cache,
    )
    .unwrap()
    {
        DeployOutcome::Complete(report) => {
            assert_eq!(
                report.entries[0].result,
                EntryResult::Failed(ResolutionError::MalformedToken)
            );
            assert_eq!(
                report.entries[1].result,
                EntryResult::FileWritten(
                    "out/ok.txt".to_string(),
                    FilePayload::Text("text".to_string())
                )
            );
        }
        other => panic!("unexpected outcome: {:?}", other),
    }
}

#[test]
fn deploy_greeting_scenario() {
    let manifest = manifest_with(vec![("greeting", TemplateValue::Direct("hi".to_string()))]);
    let template = demo_template(Some("out"));
    let entries = vec![SourceEntry {
        rel_path: "note.txt".to_string(),
        kind: EntryKind::TextFile("Say {{greeting}}".to_string()),
    }];
    let existing: Vec<String> = Vec::new();
    let cache = ValueCache::new();

    let outcome = deploy(
        &template,
        &manifest,
        Some(&entries),
        &existing,
        ConflictPolicy::Fail,
        ".",
        &cache,
    )
    .unwrap();
    match outcome {
        DeployOutcome::Complete(report) => {
            assert_eq!(report.entries.len(), 1);
            assert_eq!(report.entries[0].rel_path, "note.txt");
            assert_eq!(
                report.entries[0].result,
                EntryResult::FileWritten(
                    "out/note.txt".to_string(),
                    FilePayload::Text("Say hi".to_string())
                )
            );
            assert!(report.is_success());
            assert_eq!(report.written_count(), 1);
        }
        other => panic!("unexpected outcome: {:?}", other),
    }
}

#[test]
fn deploy_without_destination_uses_supplied_default() {
    let manifest = manifest_with(Vec::new());
    let template = demo_template(None);
    let entries = vec![SourceEntry {
        rel_path: "note.txt".to_string(),
        kind: EntryKind::TextFile("plain".to_string()),
    }];
    let existing: Vec<String> = Vec::new();
    let cache = ValueCache::new();

    match deploy(
        &template,
        &manifest,
        Some(&entries),
        &existing,
        ConflictPolicy::Fail,
        "",
        &cache,
    )
    .unwrap()
    {
        DeployOutcome::Complete(report) => {
            assert_eq!(
                report.entries[0].result,
                EntryResult::FileWritten(
                    "note.txt".to_string(),
                    FilePayload::Text("plain".to_string())
                )
            );
        }
        other => panic!("unexpected outcome: {:?}", other),
    }

    match deploy(
        &template,
        &manifest,
        Some(&entries),
        &existing,
        ConflictPolicy::Fail,
        ".",
        &cache,
    )
    .unwrap()
    {
        DeployOutcome::Complete(report) => {
            assert_eq!(
                report.entries[0].result,
                EntryResult::FileWritten(
                    "./note.txt".to_string(),
                    FilePayload::Text("plain".to_string())
                )
            );
        }
        other => panic!("unexpected outcome: {:?}", other),
    }
}

#[test]
fn deploy_reports_conflict_and_continues() {
    let manifest = manifest_with(Vec::new());
    let template = demo_template(Some("out"));
    let entries = vec![
        SourceEntry {
            rel_path: "note.txt".to_string(),
            kind: EntryKind::TextFile("hello".to_string()),
        },
        SourceEntry {
            rel_path: "other.txt".to_string(),
            kind: EntryKind::TextFile("world".to_string()),
        },
    ];
    let existing = vec!["out/note.txt".to_string()];
    let cache = ValueCache::new();

    match deploy(
        &template,
        &manifest,
        Some(&entries),
        &existing,
        ConflictPolicy::Fail,
        ".",
        &cache,
    )
    .unwrap()
    {
        DeployOutcome::Complete(report) => {
            assert_eq!(
                report.entries[0].result,
                EntryResult::Conflict("out/note.txt".to_string())
            );
            assert_eq!(
                report.entries[1].result,
                EntryResult::FileWritten(
                    "out/other.txt".to_string(),
                    FilePayload::Text("world".to_string())
                )
            );
            assert_eq!(report.failed_count(), 1);
            assert_eq!(report.written_count(), 1);
            assert!(!report.is_success());
        }
        other => panic!("unexpected outcome: {:?}", other),
    }
}

#[test]
fn deploy_round_trip_copies_tree_unchanged() {
    let manifest = manifest_with(Vec::new());
    let template = demo_template(Some("out"));
    let entries = vec![
        SourceEntry {
            rel_path: "docs".to_string(),
            kind: EntryKind::Directory,
        },
        SourceEntry {
            rel_path: "docs/a.txt".to_string(),
            kind: EntryKind::TextFile("alpha".to_string()),
        },
        SourceEntry {
            rel_path: "logo.bin".to_string(),
            kind: EntryKind::BinaryFile(vec![0, 159, 146, 150]),
        },
    ];
    let existing: Vec<String> = Vec::new();
    let cache = ValueCache::new();

    match deploy(
        &template,
        &manifest,
        Some(&entries),
        &existing,
        ConflictPolicy::Fail,
        ".",
        &cache,
    )
    .unwrap()
    {
        DeployOutcome::Complete(report) => {
            assert_eq!(
                report.entries[0].result,
                EntryResult::DirCreated("out/docs".to_string())
            );
            assert_eq!(
                report.entries[1].result,
                EntryResult::FileWritten(
                    "out/docs/a.txt".to_string(),
                    FilePayload::Text("alpha".to_string())
                )
            );
            assert_eq!(
                report.entries[2].result,
                EntryResult::FileWritten(
                    "out/logo.bin".to_string(),
                    FilePayload::Binary(vec![0, 159, 146, 150])
                )
            );
        }
        other => panic!("unexpected outcome: {:?}", other),
    }
}

#[test]
fn deploy_skip_policy_is_idempotent() {
    let manifest = manifest_with(Vec::new());
    let template = demo_template(Some("out"));
    let entries = vec![
        SourceEntry {
            rel_path: "docs".to_string(),
            kind: EntryKind::Directory,
        },
        SourceEntry {
            rel_path: "docs/a.txt".to_string(),
            kind: EntryKind::TextFile("alpha".to_string()),
        },
        SourceEntry {
            rel_path: "b.txt".to_string(),
            kind: EntryKind::TextFile("beta".to_string()),
        },
    ];
    let existing = vec!["out/docs/a.txt".to_string(), "out/b.txt".to_string()];
    let cache = ValueCache::new();

    match deploy(
        &template,
        &manifest,
        Some(&entries),
        &existing,
        ConflictPolicy::Skip,
        ".",
        &cache,
    )
    .unwrap()
    {
        DeployOutcome::Complete(report) => {
            assert_eq!(report.written_count(), 0);
            assert_eq!(report.skipped_count(), 2);
            assert_eq!(report.failed_count(), 0);
            assert_eq!(
                report.entries[0].result,
                EntryResult::DirCreated("out/docs".to_string())
            );
            assert_eq!(
                report.entries[1].result,
                EntryResult::SkippedExisting("out/docs/a.txt".to_string())
            );
            assert_eq!(
                report.entries[2].result,
                EntryResult::SkippedExisting("out/b.txt".to_string())
            );
        }
        other => panic!("unexpected outcome: {:?}", other),
    }
}

#[test]
fn deploy_overwrite_policy_writes_over_existing() {
    let manifest = manifest_with(Vec::new());
    let template = demo_template(Some("out"));
    let entries = vec![SourceEntry {
        rel_path: "a.txt".to_string(),
        kind: EntryKind::TextFile("new".to_string()),
    }];
    let existing = vec!["out/a.txt".to_string()];
    let cache = ValueCache::new();

    match deploy(
        &template,
        &manifest,
        Some(&entries),
        &existing,
        ConflictPolicy::Overwrite,
        ".",
        &cache,
    )
    .unwrap()
    {
        DeployOutcome::Complete(report) => {
            assert_eq!(
                report.entries[0].result,
                EntryResult::FileWritten("out/a.txt".to_string(), FilePayload::Text("new".to_string()))
            );
        }
        other => panic!("unexpected outcome: {:?}", other),
    }
}

#[test]
fn deploy_malformed_entry_fails_without_output() {
    let manifest = manifest_with(vec![("a", TemplateValue::Direct("x".to_string()))]);
    let template = demo_template(Some("out"));
    let entries = vec![
        SourceEntry {
            rel_path: "bad.txt".to_string(),
            kind: EntryKind::TextFile("oops {{a".to_string()),
        },
        SourceEntry {
            rel_path: "good.txt".to_string(),
            kind: EntryKind::TextFile("fine {{a}}".to_string()),
        },
    ];
    let existing: Vec<String> = Vec::new();
    let cache = ValueCache::new();

    match deploy(
        &template,
        &manifest,
        Some(&entries),
        &existing,
        ConflictPolicy::Fail,
        ".",
        &cache,
    )
    .unwrap()
    {
        DeployOutcome::Complete(report) => {
            assert_eq!(
                report.entries[0].result,
                EntryResult::Failed(ResolutionError::MalformedToken)
            );
            assert_eq!(
                report.entries[1].result,
                EntryResult::FileWritten(
                    "out/good.txt".to_string(),
                    FilePayload::Text("fine x".to_string())
                )
            );
            assert!(!report.is_success());
        }
        other => panic!("unexpected outcome: {:?}", other),
    }
}

#[test]
fn deploy_without_source_fails_fatally() {
    let manifest = manifest_with(Vec::new());
    let mut template = demo_template(Some("out"));
    template.source = None;
    let entries: Vec<SourceEntry> = Vec::new();
    let existing: Vec<String> = Vec::new();
    let cache = ValueCache::new();

    assert_eq!(
        deploy(
            &template,
            &manifest,
            Some(&entries),
            &existing,
            ConflictPolicy::Fail,
            ".",
            &cache,
        ),
        Err(DeployError::SourceNotFound)
    );

    let template = demo_template(Some("out"));
    assert_eq!(
        deploy(
            &template,
            &manifest,
            None,
            &existing,
            ConflictPolicy::Fail,
            ".",
            &cache,
        ),
        Err(DeployError::SourceNotFound)
    );
}

#[test]
fn deploy_prompts_once_per_name_for_repeated_references() {
    let manifest = manifest_with(vec![(
        "ans",
        TemplateValue::User {
            prompt: "Pick something".to_string(),
        },
    )]);
    let template = demo_template(Some("{{ans}}-dir"));
    let entries = vec![
        SourceEntry {
            rel_path: "one-{{ans}}.txt".to_string(),
            kind: EntryKind::TextFile("got {{ans}}".to_string()),
        },
        SourceEntry {
            rel_path: "two.txt".to_string(),
            kind: EntryKind::TextFile("again {{ans}}".to_string()),
        },
    ];
    let existing: Vec<String> = Vec::new();
    let mut cache = ValueCache::new();
    let mut prompts: Vec<String> = Vec::new();

    let report = drive_deploy(
        &template,
        &manifest,
        &entries,
        &existing,
        ConflictPolicy::Fail,
        ".",
        &mut cache,
        "42",
        &mut prompts,
    );

    assert_eq!(prompts, vec!["Pick something".to_string()]);
    assert_eq!(
        report.entries[0].result,
        EntryResult::FileWritten(
            "42-dir/one-42.txt".to_string(),
            FilePayload::Text("got 42".to_string())
        )
    );
    assert_eq!(
        report.entries[1].result,
        EntryResult::FileWritten(
            "42-dir/two.txt".to_string(),
            FilePayload::Text("again 42".to_string())
        )
    );
}

#[test]
fn deploy_unknown_reference_in_destination_fails_every_entry() {
    let manifest = manifest_with(Vec::new());
    let template = demo_template(Some("{{nowhere}}"));
    let entries = vec![
        SourceEntry {
            rel_path: "a.txt".to_string(),
            kind: EntryKind::TextFile("a".to_string()),
        },
        SourceEntry {
            rel_path: "b.txt".to_string(),
            kind: EntryKind::TextFile("b".to_string()),
        },
    ];
    let existing: Vec<String> = Vec::new();
    let cache = ValueCache::new();

    match deploy(
        &template,
        &manifest,
        Some(&entries),
        &existing,
        ConflictPolicy::Fail,
        ".",
        &cache,
    )
    .unwrap()
    {
        DeployOutcome::Complete(report) => {
            assert_eq!(report.entries.len(), 2);
            for line in &report.entries {
                assert_eq!(
                    line.result,
                    EntryResult::Failed(ResolutionError::UnknownValue("nowhere".to_string()))
                );
            }
        }
        other => panic!("unexpected outcome: {:?}", other),
    }
}
