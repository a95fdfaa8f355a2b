use conf::environment::EnvironmentName;
use conf::error::ConfigError;
use conf::resolve;
use conf::value::{Kind, Value};

const DOC: &str = "[global]\nport = 80\n[production]\nport = 8080\n";

#[test]
fn round_trip_production() {
    let cfg = resolve(DOC, "Conf.toml", Some("production")).unwrap();
    assert_eq!(cfg.environment, EnvironmentName::Production);
    assert_eq!(cfg.path, "Conf.toml");
    match cfg.get("port") {
        Some(Value::Integer(v, _)) => assert_eq!(*v, 8080),
        other => panic!("unexpected value: {:?}", other),
    }
}

#[test]
fn round_trip_development() {
    let cfg = resolve(DOC, "Conf.toml", Some("development")).unwrap();
    assert_eq!(cfg.environment, EnvironmentName::Development);
    match cfg.get("port") {
        Some(Value::Integer(v, _)) => assert_eq!(*v, 80),
        other => panic!("unexpected value: {:?}", other),
    }
}

#[test]
fn global_keys_without_header_are_defaults() {
    let text = "port = 80\nhost = \"localhost\"\n";
    let cfg = resolve(text, "Conf.toml", None).unwrap();
    match cfg.get("host") {
        Some(Value::Str(s, _)) => assert_eq!(s, "localhost"),
        other => panic!("unexpected value: {:?}", other),
    }
    match cfg.get("port") {
        Some(Value::Integer(v, _)) => assert_eq!(*v, 80),
        other => panic!("unexpected value: {:?}", other),
    }
}

#[test]
fn non_active_environment_keys_are_discarded() {
    let text = "[global]\nport = 80\n[staging]\nworkers = 4\n";
    let cfg = resolve(text, "Conf.toml", Some("production")).unwrap();
    assert!(cfg.get("workers").is_none());
    assert!(cfg.get("port").is_some());
}

#[test]
fn environment_value_overrides_global() {
    let text = "[global]\nlevel = \"info\"\n[development]\nlevel = \"debug\"\n";
    let cfg = resolve(text, "Conf.toml", Some("development")).unwrap();
    match cfg.get("level") {
        Some(Value::Str(s, _)) => assert_eq!(s, "debug"),
        other => panic!("unexpected value: {:?}", other),
    }
}

#[test]
fn global_key_survives_when_not_overridden() {
    let text = "[global]\nlevel = \"info\"\n[development]\nextra = true\n";
    let cfg = resolve(text, "Conf.toml", Some("development")).unwrap();
    match cfg.get("level") {
        Some(Value::Str(s, _)) => assert_eq!(s, "info"),
        other => panic!("unexpected value: {:?}", other),
    }
    match cfg.get("extra") {
        Some(Value::Boolean(b, _)) => assert!(*b),
        other => panic!("unexpected value: {:?}", other),
    }
}

#[test]
fn selector_matches_case_insensitively() {
    let cfg = resolve(DOC, "Conf.toml", Some("PRODUCTION")).unwrap();
    assert_eq!(cfg.environment, EnvironmentName::Production);
}

#[test]
fn absent_selector_means_default_environment() {
    let cfg = resolve(DOC, "Conf.toml", None).unwrap();
    assert_eq!(cfg.environment, EnvironmentName::Development);
}

#[test]
fn bad_selector_is_reported_verbatim() {
    let err = resolve(DOC, "Conf.toml", Some("prod")).unwrap_err();
    match &err {
        ConfigError::BadEnvironmentSelector { selector } => assert_eq!(selector, "prod"),
        other => panic!("unexpected error: {:?}", other),
    }
    assert_eq!(err.message(), "prod is not a valid environment-selector value");
}

#[test]
fn misspelled_section_is_a_bad_entry() {
    let text = "[productoin]\nport = 1\n";
    let err = resolve(text, "Conf.toml", Some("production")).unwrap_err();
    match &err {
        ConfigError::BadEnvironmentEntry { name, path } => {
            assert_eq!(name, "productoin");
            assert_eq!(path, "Conf.toml");
        },
        other => panic!("unexpected error: {:?}", other),
    }
    assert_eq!(err.message(), "productoin is not a valid [environment] entry");
}

#[test]
fn first_offending_section_is_reported() {
    let text = "[bogus]\na = 1\n[worse]\nb = 2\n";
    let err = resolve(text, "Conf.toml", None).unwrap_err();
    match &err {
        ConfigError::BadEnvironmentEntry { name, .. } => assert_eq!(name, "bogus"),
        other => panic!("unexpected error: {:?}", other),
    }
}

#[test]
fn wrong_type_is_a_type_mismatch() {
    let text = "workers = \"four\"\n";
    let cfg = resolve(text, "Conf.toml", None).unwrap();
    let err = cfg.extract("workers", Kind::Integer).unwrap_err();
    match &err {
        ConfigError::TypeMismatch { key, expected, actual, path } => {
            assert_eq!(key, "workers");
            assert_eq!(expected, "Integer");
            assert_eq!(actual, "String");
            assert_eq!(path.as_deref(), Some("Conf.toml"));
        },
        other => panic!("unexpected error: {:?}", other),
    }
    assert_eq!(
        err.message(),
        "type mismatch for 'workers'. expected Integer, found String"
    );
}

#[test]
fn missing_key_is_a_distinct_condition() {
    let cfg = resolve(DOC, "Conf.toml", None).unwrap();
    assert_eq!(cfg.extract("absent", Kind::Integer).unwrap(), None);
}

#[test]
fn matching_type_extracts_the_value() {
    let cfg = resolve(DOC, "Conf.toml", Some("production")).unwrap();
    match cfg.extract("port", Kind::Integer).unwrap() {
        Some(Value::Integer(v, _)) => assert_eq!(*v, 8080),
        other => panic!("unexpected value: {:?}", other),
    }
}

#[test]
fn section_names_match_case_insensitively() {
    let text = "[global]\nport = 80\n[Production]\nport = 8080\n";
    let cfg = resolve(text, "Conf.toml", Some("production")).unwrap();
    match cfg.get("port") {
        Some(Value::Integer(v, _)) => assert_eq!(*v, 8080),
        other => panic!("unexpected value: {:?}", other),
    }
}

#[test]
fn container_kinds_are_named_in_mismatches() {
    let cfg = conf::resolved::ResolvedConfig {
        values: vec![conf::value::Entry {
            key: "items".to_string(),
            value: Value::Array(Vec::new(), None),
        }],
        environment: EnvironmentName::Development,
        path: "Conf.toml".to_string(),
    };
    assert!(cfg.extract("items", Kind::Array).unwrap().is_some());
    let err = cfg.extract("items", Kind::Table).unwrap_err();
    match &err {
        ConfigError::TypeMismatch { expected, actual, .. } => {
            assert_eq!(expected, "Table");
            assert_eq!(actual, "Array");
        },
        other => panic!("unexpected error: {:?}", other),
    }
}

#[test]
fn syntax_error_stops_the_whole_resolution() {
    let text = "port = 80\nnot a line\n[production]\nport = 8080\n";
    let err = resolve(text, "Conf.toml", Some("production")).unwrap_err();
    match &err {
        ConfigError::ParseFailure { path, span, .. } => {
            assert_eq!(path, "Conf.toml");
            assert!(span.is_some());
        },
        other => panic!("unexpected error: {:?}", other),
    }
}

#[test]
fn default_environment_section_applies_without_selector() {
    let text = "level = \"info\"\n[development]\nlevel = \"debug\"\n";
    let cfg = resolve(text, "Conf.toml", None).unwrap();
    match cfg.get("level") {
        Some(Value::Str(s, _)) => assert_eq!(s, "debug"),
        other => panic!("unexpected value: {:?}", other),
    }
}

#[test]
fn no_silent_cross_tag_coercion() {
    let text = "ratio = 1.5\ncount = 2\n";
    let cfg = resolve(text, "Conf.toml", None).unwrap();
    assert!(cfg.extract("ratio", Kind::Integer).is_err());
    assert!(cfg.extract("count", Kind::Float).is_err());
}
