//! The manifest loader: turns an already-parsed configuration tree into a
//! validated [`Manifest`]. Reading and tokenizing the manifest file itself is
//! the caller's job; this module decides what the tree means.

use vstd::prelude::*;
use vstd::string::StringExecFns;
use crate::keys_unique;
use crate::manifest::{assoc_lookup, assoc_get, Manifest, Template, TemplateValue};

verus! {

/// One node of an already-parsed configuration tree, as a structured-config
/// parser hands it over. Scalars the loader has no use for (dates, floats)
/// arrive as `Other`; the loader rejects them by shape alone.
#[derive(Debug, PartialEq)]
pub enum ConfigValue {
    Str(String),
    Int(i64),
    Bool(bool),
    Array(Vec<ConfigValue>),
    Table(Vec<(String, ConfigValue)>),
    Other,
}

/// The raw shape of one `values` entry, before it is adopted into the
/// manifest proper.
#[derive(Debug, PartialEq)]
pub enum TemplateValueToml {
    Direct(String),
    User { prompt: String },
}

/// Why a configuration tree was refused; each variant carries the offending
/// key path.
#[derive(Debug, PartialEq)]
pub enum ParseError {
    /// A section is present but not shaped as a mapping.
    InvalidSection(String),
    /// An entry has a shape the manifest cannot hold.
    InvalidValue(String),
}

/// A refusal at the specification level: the kind and the key path.
pub enum LoadIssue {
    BadSection(Seq<char>),
    BadValue(Seq<char>),
}

/// The manifest value a raw entry stands for.
pub open spec fn raw_to_value(raw: TemplateValueToml) -> TemplateValue {
    match raw {
        TemplateValueToml::Direct(t) => TemplateValue::Direct(t),
        TemplateValueToml::User { prompt } => TemplateValue::User { prompt },
    }
}

impl TemplateValueToml {
    /// The manifest value this raw entry stands for.
    pub fn into_value(self) -> (r: TemplateValue)
        ensures
            r == raw_to_value(self),
    {
        match self {
            TemplateValueToml::Direct(t) => TemplateValue::Direct(t),
            TemplateValueToml::User { prompt } => TemplateValue::User { prompt },
        }
    }
}

/// The entries of the section called `key`, taking an absent section as empty.
pub open spec fn section_entries(root: Seq<(String, ConfigValue)>, key: Seq<char>) -> Seq<
    (String, ConfigValue),
> {
    match assoc_lookup(root, key) {
        Some(ConfigValue::Table(es)) => es@,
        _ => Seq::<(String, ConfigValue)>::empty(),
    }
}

/// The section called `key` is absent or shaped as a mapping.
pub open spec fn section_ok(root: Seq<(String, ConfigValue)>, key: Seq<char>) -> bool {
    match assoc_lookup(root, key) {
        None => true,
        Some(ConfigValue::Table(_)) => true,
        Some(_) => false,
    }
}

/// A `values` entry of a shape the manifest cannot hold: anything but a
/// string or a mapping with a string under `prompt`.
pub open spec fn value_invalid(cv: ConfigValue) -> bool {
    match cv {
        ConfigValue::Str(_) => false,
        ConfigValue::Table(es) => !(assoc_lookup(es@, "prompt"@) matches Some(
            ConfigValue::Str(_),
        )),
        _ => true,
    }
}

/// The manifest value `tv` is what the raw entry `cv` declares.
pub open spec fn value_matches(cv: ConfigValue, tv: TemplateValue) -> bool {
    match cv {
        ConfigValue::Str(s) => tv matches TemplateValue::Direct(t) && t@ == s@,
        ConfigValue::Table(es) => assoc_lookup(es@, "prompt"@) matches Some(
            ConfigValue::Str(p),
        ) && tv matches TemplateValue::User { prompt } && prompt@ == p@,
        _ => false,
    }
}

/// The key of the first `values` entry with a refused shape.
pub open spec fn first_invalid_value(es: Seq<(String, ConfigValue)>) -> Option<String>
    decreases es.len(),
{
    if es.len() == 0 {
        None
    } else if value_invalid(es[0].1) {
        Some(es[0].0)
    } else {
        first_invalid_value(es.drop_first())
    }
}

/// The field called `key` is absent or a string.
pub open spec fn field_ok(es: Seq<(String, ConfigValue)>, key: Seq<char>) -> bool {
    match assoc_lookup(es, key) {
        None => true,
        Some(ConfigValue::Str(_)) => true,
        Some(_) => false,
    }
}

/// The optional string field `out` is what the raw table declares under `key`.
pub open spec fn field_matches(
    es: Seq<(String, ConfigValue)>,
    key: Seq<char>,
    out: Option<String>,
) -> bool {
    match assoc_lookup(es, key) {
        None => out is None,
        Some(ConfigValue::Str(s)) => out matches Some(o) && o@ == s@,
        Some(_) => false,
    }
}

/// The key path of the refusal a `templates` entry earns, if any.
pub open spec fn template_entry_issue(k: String, cv: ConfigValue) -> Option<Seq<char>> {
    match cv {
        ConfigValue::Table(es) => if !field_ok(es@, "source"@) {
            Some("templates."@ + k@ + ".source"@)
        } else if !field_ok(es@, "destination"@) {
            Some("templates."@ + k@ + ".destination"@)
        } else {
            None
        },
        _ => Some("templates."@ + k@),
    }
}

/// The key path of the first refused `templates` entry.
pub open spec fn first_template_issue(es: Seq<(String, ConfigValue)>) -> Option<Seq<char>>
    decreases es.len(),
{
    if es.len() == 0 {
        None
    } else if template_entry_issue(es[0].0, es[0].1) is Some {
        template_entry_issue(es[0].0, es[0].1)
    } else {
        first_template_issue(es.drop_first())
    }
}

/// The refusal the whole tree earns, if any: section shapes and `values`
/// entries are judged before `templates` entries.
pub open spec fn load_issue(c: ConfigValue) -> Option<LoadIssue> {
    match c {
        ConfigValue::Table(root) => if !section_ok(root@, "values"@) {
            Some(LoadIssue::BadSection("values"@))
        } else {
            match first_invalid_value(section_entries(root@, "values"@)) {
                Some(k) => Some(LoadIssue::BadValue("values."@ + k@)),
                None => if !section_ok(root@, "templates"@) {
                    Some(LoadIssue::BadSection("templates"@))
                } else {
                    match first_template_issue(section_entries(root@, "templates"@)) {
                        Some(p) => Some(LoadIssue::BadValue(p)),
                        None => None,
                    }
                },
            }
        },
        _ => Some(LoadIssue::BadSection(Seq::<char>::empty())),
    }
}

/// The template `out.1` is what the raw entry `(k, cv)` declares, filed
/// under its name and stamped with `base`.
pub open spec fn template_entry_matches(
    k: String,
    cv: ConfigValue,
    base: Seq<char>,
    out: (String, Template),
) -> bool {
    &&& out.0@ == k@
    &&& out.1.name@ == k@
    &&& out.1.base_path@ == base
    &&& cv matches ConfigValue::Table(es) && field_matches(es@, "source"@, out.1.source)
        && field_matches(es@, "destination"@, out.1.destination)
}

/// The loaded values are exactly what the `values` section declares,
/// entry for entry, in order.
pub open spec fn values_loaded(
    root: Seq<(String, ConfigValue)>,
    out: Seq<(String, TemplateValue)>,
) -> bool {
    let vs = section_entries(root, "values"@);
    &&& out.len() == vs.len()
    &&& forall|i: int|
        0 <= i < vs.len() ==> (#[trigger] out[i]).0@ == vs[i].0@ && value_matches(vs[i].1, out[i].1)
}

/// The loaded templates are exactly what the `templates` section declares,
/// entry for entry, in order.
pub open spec fn templates_loaded(
    root: Seq<(String, ConfigValue)>,
    base: Seq<char>,
    out: Seq<(String, Template)>,
) -> bool {
    let ts = section_entries(root, "templates"@);
    &&& out.len() == ts.len()
    &&& forall|i: int|
        0 <= i < ts.len() ==> template_entry_matches(ts[i].0, ts[i].1, base, #[trigger] out[i])
}

/// The manifest `m` is exactly what the tree `c` declares, anchored to `base`.
pub open spec fn load_ok(c: ConfigValue, base: Seq<char>, m: Manifest) -> bool {
    c matches ConfigValue::Table(root) && {
        &&& m.base_path@ == base
        &&& values_loaded(root@, m.values@)
        &&& templates_loaded(root@, base, m.templates@)
    }
}

/// The reported error carries the kind and key path of the refusal.
pub open spec fn issue_reported(issue: LoadIssue, e: ParseError) -> bool {
    match issue {
        LoadIssue::BadSection(p) => e matches ParseError::InvalidSection(s) && s@ == p,
        LoadIssue::BadValue(p) => e matches ParseError::InvalidValue(s) && s@ == p,
    }
}

/// The sections of the tree carry no key twice, as any mapping-shaped
/// configuration source guarantees.
pub open spec fn config_sections_wf(c: ConfigValue) -> bool {
    match c {
        ConfigValue::Table(root) => {
            &&& (match assoc_lookup(root@, "values"@) {
                Some(ConfigValue::Table(es)) => keys_unique(es@),
                _ => true,
            })
            &&& (match assoc_lookup(root@, "templates"@) {
                Some(ConfigValue::Table(es)) => keys_unique(es@),
                _ => true,
            })
        },
        _ => true,
    }
}

/// Concatenates a fixed prefix and a key into one key path.
fn join2(a: &str, b: &str) -> (r: String)
    ensures
        r@ == a@ + b@,
{
    let s: String = a.to_owned();
    s.concat(b)
}

/// Concatenates a fixed prefix, a key, and a fixed suffix into one key path.
fn join3(a: &str, b: &str, c: &str) -> (r: String)
    ensures
        r@ == a@ + b@ + c@,
{
    let s: String = a.to_owned();
    let s2: String = s.concat(b);
    s2.concat(c)
}

/// Judges one `values` entry by its shape.
fn classify_value(cv: &ConfigValue) -> (r: Option<TemplateValueToml>)
    ensures
        value_invalid(*cv) <==> r is None,
        match r {
            Some(raw) => value_matches(*cv, raw_to_value(raw)),
            None => true,
        },
{
    match cv {
        ConfigValue::Str(s) => Some(TemplateValueToml::Direct(s.clone())),
        ConfigValue::Table(es) => match assoc_get(es, "prompt") {
            Some(ConfigValue::Str(p)) => Some(TemplateValueToml::User { prompt: p.clone() }),
            _ => None,
        },
        _ => None,
    }
}

/// Turns an already-parsed configuration tree into a validated manifest
/// anchored to `base_path`. An absent `values` or `templates` section counts
/// as empty; a present one must be a mapping, and every entry must have an
/// adoptable shape, or the offending key path is reported.
#[verifier::loop_isolation(false)]
pub fn load_manifest(config: &ConfigValue, base_path: &str) -> (r: Result<Manifest, ParseError>)
    requires
        config_sections_wf(*config),
    ensures
        match r {
            Ok(m) => load_issue(*config) is None && load_ok(*config, base_path@, m) && m.wf(),
            Err(e) => load_issue(*config) matches Some(issue) && issue_reported(issue, e),
        },
{
    let root: &Vec<(String, ConfigValue)> = match config {
        ConfigValue::Table(root) => root,
        _ => {
            return Err(ParseError::InvalidSection(String::new()));
        },
    };

    let mut values: Vec<(String, TemplateValue)> = Vec::new();
    match assoc_get(root, "values") {
        None => {
            proof {
                assert(section_entries(root@, "values"@) =~= Seq::<(String, ConfigValue)>::empty());
                assert(first_invalid_value(section_entries(root@, "values"@)) is None);
                assert(values_loaded(root@, values@));
            }
        },
        Some(ConfigValue::Table(es)) => {
            let n = es.len();
            let mut i: usize = 0;
            proof {
                assert(es@.skip(0) =~= es@);
            }
            while i < n
                invariant
                    n == es.len(),
                    i <= n,
                    section_entries(root@, "values"@) == es@,
                    values@.len() == i,
                    forall|j: int|
                        0 <= j < i ==> (#[trigger] values@[j]).0@ == es@[j].0@ && value_matches(
                            es@[j].1,
                            values@[j].1,
                        ),
                    first_invalid_value(es@) == first_invalid_value(es@.skip(i as int)),
                decreases n - i,
            {
                proof {
                    assert(es@.skip(i as int)[0] == es@[i as int]);
                    assert(es@.skip(i as int).drop_first() =~= es@.skip(i as int + 1));
                }
                match classify_value(&es[i].1) {
                    Some(raw) => {
                        values.push((es[i].0.clone(), raw.into_value()));
                    },
                    None => {
                        return Err(ParseError::InvalidValue(join2("values.", es[i].0.as_str())));
                    },
                }
                i = i + 1;
            }
            proof {
                assert(es@.skip(n as int).len() == 0);
                assert(first_invalid_value(section_entries(root@, "values"@)) is None);
                assert(values_loaded(root@, values@));
            }
        },
        Some(_) => {
            return Err(ParseError::InvalidSection("values".to_owned()));
        },
    }

    let mut templates: Vec<(String, Template)> = Vec::new();
    match assoc_get(root, "templates") {
        None => {
            proof {
                assert(section_entries(root@, "templates"@) =~= Seq::<(
                    String,
                    ConfigValue,
                )>::empty());
                assert(first_template_issue(section_entries(root@, "templates"@)) is None);
                assert(templates_loaded(root@, base_path@, templates@));
            }
        },
        Some(ConfigValue::Table(es)) => {
            let n = es.len();
            let mut i: usize = 0;
            proof {
                assert(es@.skip(0) =~= es@);
            }
            while i < n
                invariant
                    n == es.len(),
                    i <= n,
                    section_entries(root@, "templates"@) == es@,
                    templates@.len() == i,
                    forall|j: int|
                        0 <= j < i ==> template_entry_matches(
                            es@[j].0,
                            es@[j].1,
                            base_path@,
                            #[trigger] templates@[j],
                        ),
                    first_template_issue(es@) == first_template_issue(es@.skip(i as int)),
                decreases n - i,
            {
                proof {
                    assert(es@.skip(i as int)[0] == es@[i as int]);
                    assert(es@.skip(i as int).drop_first() =~= es@.skip(i as int + 1));
                }
                let key = &es[i].0;
                let fields: &Vec<(String, ConfigValue)> = match &es[i].1 {
                    ConfigValue::Table(fields) => fields,
                    _ => {
                        return Err(ParseError::InvalidValue(join2("templates.", key.as_str())));
                    },
                };
                let source: Option<String> = match assoc_get(fields, "source") {
                    None => None,
                    Some(ConfigValue::Str(s)) => Some(s.clone()),
                    Some(_) => {
                        return Err(ParseError::InvalidValue(
                            join3("templates.", key.as_str(), ".source"),
                        ));
                    },
                };
                let destination: Option<String> = match assoc_get(fields, "destination") {
                    None => None,
                    Some(ConfigValue::Str(s)) => Some(s.clone()),
                    Some(_) => {
                        return Err(ParseError::InvalidValue(
                            join3("templates.", key.as_str(), ".destination"),
                        ));
                    },
                };
                templates.push(
                    (
                        key.clone(),
                        Template {
                            base_path: base_path.to_owned(),
                            name: key.clone(),
                            source,
                            destination,
                        },
                    ),
                );
                i = i + 1;
            }
            proof {
                assert(es@.skip(n as int).len() == 0);
                assert(first_template_issue(section_entries(root@, "templates"@)) is None);
                assert(templates_loaded(root@, base_path@, templates@));
            }
        },
        Some(_) => {
            return Err(ParseError::InvalidSection("templates".to_owned()));
        },
    }

    let m = Manifest { base_path: base_path.to_owned(), values, templates };
    proof {
        lemma_loaded_keys_unique(*config, base_path@, m);
    }
    Ok(m)
}

/// Keys adopted from unique-keyed sections stay unique.
proof fn lemma_loaded_keys_unique(c: ConfigValue, base: Seq<char>, m: Manifest)
    requires
        config_sections_wf(c),
        load_ok(c, base, m),
    ensures
        m.wf(),
{
    let root = c->Table_0;
    let vs = section_entries(root@, "values"@);
    let ts = section_entries(root@, "templates"@);
    assert(keys_unique(vs));
    assert(keys_unique(ts));
    assert forall|i: int, j: int| 0 <= i < j < m.values@.len() implies m.values@[i].0@
        != m.values@[j].0@ by {
        assert(m.values@[i].0@ == vs[i].0@);
        assert(m.values@[j].0@ == vs[j].0@);
    }
    assert forall|i: int, j: int| 0 <= i < j < m.templates@.len() implies m.templates@[i].0@
        != m.templates@[j].0@ by {
        assert(template_entry_matches(ts[i].0, ts[i].1, base, m.templates@[i]));
        assert(template_entry_matches(ts[j].0, ts[j].1, base, m.templates@[j]));
    }
}

/// A manifest whose `values` and `templates` sections are both present and
/// empty loads without refusal, and both of its mappings come out empty.
pub proof fn lemma_load_empty_sections(c: ConfigValue, base: Seq<char>, m: Manifest)
    requires
        has_empty_sections(c),
        load_ok(c, base, m),
    ensures
        load_issue(c) is None,
        m.values@.len() == 0,
        m.templates@.len() == 0,
{
}

/// Both sections are present and hold no entry.
pub open spec fn has_empty_sections(c: ConfigValue) -> bool {
    &&& c matches ConfigValue::Table(root)
    &&& assoc_lookup(root@, "values"@) matches Some(v) && v matches ConfigValue::Table(es)
        && es@.len() == 0
    &&& assoc_lookup(root@, "templates"@) matches Some(t) && t matches ConfigValue::Table(ts)
        && ts@.len() == 0
}

} // verus!
