use clicker::manifest::{Manifest, Template, TemplateValue};
use clicker::manifest_toml::{load_manifest, ConfigValue, ParseError};

/// Construct a dummy manifest with some values for testing
fn test_manifest() -> Manifest {
    let mut templates: Vec<(String, Template)> = Vec::new();

    templates.push((
        "first_template".to_string(),
        Template {
            name: "first_template".to_string(),
            base_path: String::new(),
            source: Some("source".to_string()),
            destination: Some("destination".to_string()),
        },
    ));

    templates.push((
        "second_template".to_string(),
        Template {
            name: "second_template".to_string(),
            base_path: String::new(),
            source: Some("source".to_string()),
            destination: Some("destination".to_string()),
        },
    ));

    Manifest {
        base_path: String::new(),
        values: Vec::new(),
        templates,
    }
}

#[test]
fn should_get_template_by_name() {
    let manifest = test_manifest();
    let template = manifest.template_by_name("second_template").unwrap();

    assert_eq!(template.name, "second_template");
}

#[test]
fn should_return_none_for_none_existing_template() {
    let manifest = test_manifest();
    let template = manifest.template_by_name("other_name");

    assert_eq!(template, None);
}

#[test]
fn should_parse_empty_manifest() {
    assert_eq!(
        load_manifest(&ConfigValue::Table(Vec::new()), "").unwrap(),
        Manifest {
            base_path: String::new(),
            values: Vec::new(),
            templates: Vec::new(),
        }
    );
}

#[test]
fn should_parse_string_values() {
    let config = ConfigValue::Table(vec![(
        "values".to_string(),
        ConfigValue::Table(vec![
            (
                "my_value".to_string(),
                ConfigValue::Str("stuff".to_string()),
            ),
            (
                "my_other_value".to_string(),
                ConfigValue::Str("other stuff".to_string()),
            ),
        ]),
    )]);
    let manifest = load_manifest(&config, "").unwrap();

    assert_eq!(
        manifest.value_by_name("my_value"),
        Some(&TemplateValue::Direct("stuff".to_string()))
    );
    assert_eq!(
        manifest.value_by_name("my_other_value"),
        Some(&TemplateValue::Direct("other stuff".to_string()))
    );
}

#[test]
fn should_parse_user_values() {
    let config = ConfigValue::Table(vec![(
        "values".to_string(),
        ConfigValue::Table(vec![(
            "my_value".to_string(),
            ConfigValue::Table(vec![(
                "prompt".to_string(),
                ConfigValue::Str("Please enter a value".to_string()),
            )]),
        )]),
    )]);
    assert_eq!(
        load_manifest(&config, "").unwrap().value_by_name("my_value"),
        Some(&TemplateValue::User {
            prompt: "Please enter a value".to_string()
        })
    );
}

#[test]
fn should_fail_parsing_invalid_value_list() {
    let config = ConfigValue::Table(vec![(
        "values".to_string(),
        ConfigValue::Str("these_are_not_values".to_string()),
    )]);
    assert!(load_manifest(&config, "").is_err());
}

#[test]
fn should_fail_parsing_invalid_value() {
    let config = ConfigValue::Table(vec![(
        "values".to_string(),
        ConfigValue::Table(vec![("my_value".to_string(), ConfigValue::Int(4))]),
    )]);
    assert!(load_manifest(&config, "").is_err());
}

#[test]
fn should_parse_templates() {
    let config = ConfigValue::Table(vec![(
        "templates".to_string(),
        ConfigValue::Table(vec![(
            "some_name".to_string(),
            ConfigValue::Table(vec![(
                "source".to_string(),
                ConfigValue::Str("source".to_string()),
            )]),
        )]),
    )]);
    let man = load_manifest(&config, "").unwrap();

    assert_eq!(
        man.template_by_name("some_name"),
        Some(&Template {
            name: "some_name".to_string(),
            base_path: String::new(),
            source: Some("source".to_string()),
            destination: None,
        })
    );
}

#[test]
fn empty_sections_load_as_empty_mappings() {
    let config = ConfigValue::Table(vec![
        ("values".to_string(), ConfigValue::Table(Vec::new())),
        ("templates".to_string(), ConfigValue::Table(Vec::new())),
    ]);
    let manifest = load_manifest(&config, "/base").unwrap();
    assert_eq!(manifest.base_path, "/base");
    assert!(manifest.values.is_empty());
    assert!(manifest.templates.is_empty());
}

#[test]
fn invalid_section_reports_its_key() {
    let config = ConfigValue::Table(vec![("values".to_string(), ConfigValue::Int(3))]);
    assert_eq!(
        load_manifest(&config, ""),
        Err(ParseError::InvalidSection("values".to_string()))
    );

    let config = ConfigValue::Table(vec![("templates".to_string(), ConfigValue::Bool(true))]);
    assert_eq!(
        load_manifest(&config, ""),
        Err(ParseError::InvalidSection("templates".to_string()))
    );
}

#[test]
fn invalid_value_reports_its_key_path() {
    let config = ConfigValue::Table(vec![(
        "values".to_string(),
        ConfigValue::Table(vec![
            ("good".to_string(), ConfigValue::Str("ok".to_string())),
            ("bad".to_string(), ConfigValue::Array(Vec::new())),
        ]),
    )]);
    assert_eq!(
        load_manifest(&config, ""),
        Err(ParseError::InvalidValue("values.bad".to_string()))
    );

    let config = ConfigValue::Table(vec![(
        "values".to_string(),
        ConfigValue::Table(vec![(
            "no_prompt".to_string(),
            ConfigValue::Table(vec![(
                "question".to_string(),
                ConfigValue::Str("?".to_string()),
            )]),
        )]),
    )]);
    assert_eq!(
        load_manifest(&config, ""),
        Err(ParseError::InvalidValue("values.no_prompt".to_string()))
    );
}

#[test]
fn invalid_template_entries_report_their_key_paths() {
    let config = ConfigValue::Table(vec![(
        "templates".to_string(),
        ConfigValue::Table(vec![("demo".to_string(), ConfigValue::Str("x".to_string()))]),
    )]);
    assert_eq!(
        load_manifest(&config, ""),
        Err(ParseError::InvalidValue("templates.demo".to_string()))
    );

    let config = ConfigValue::Table(vec![(
        "templates".to_string(),
        ConfigValue::Table(vec![(
            "demo".to_string(),
            ConfigValue::Table(vec![("source".to_string(), ConfigValue::Int(1))]),
        )]),
    )]);
    assert_eq!(
        load_manifest(&config, ""),
        Err(ParseError::InvalidValue("templates.demo.source".to_string()))
    );

    let config = ConfigValue::Table(vec![(
        "templates".to_string(),
        ConfigValue::Table(vec![(
            "demo".to_string(),
            ConfigValue::Table(vec![
                (
                    "source".to_string(),
                    ConfigValue::Str("tpl".to_string()),
                ),
                ("destination".to_string(), ConfigValue::Bool(false)),
            ]),
        )]),
    )]);
    assert_eq!(
        load_manifest(&config, ""),
        Err(ParseError::InvalidValue(
            "templates.demo.destination".to_string()
        ))
    );
}

#[test]
fn templates_are_stamped_with_the_base_path() {
    let config = ConfigValue::Table(vec![(
        "templates".to_string(),
        ConfigValue::Table(vec![(
            "demo".to_string(),
            ConfigValue::Table(vec![
                ("source".to_string(), ConfigValue::Str("tpl".to_string())),
                (
                    "destination".to_string(),
                    ConfigValue::Str("out".to_string()),
                ),
            ]),
        )]),
    )]);
    let man = load_manifest(&config, "/somewhere").unwrap();
    let t = man.template_by_name("demo").unwrap();
    assert_eq!(t.base_path, "/somewhere");
    assert_eq!(t.source, Some("tpl".to_string()));
    assert_eq!(t.destination, Some("out".to_string()));
    assert_eq!(man.base_path, "/somewhere");
}
