use conf::error::ConfigError;
use conf::locate::{candidate_path, locate, Candidate, FileStatus};

fn candidate(path: &str, status: FileStatus) -> Candidate {
    Candidate { path: path.to_string(), status }
}

#[test]
fn absent_everywhere_is_not_found() {
    let cands = vec![
        candidate("./Conf.toml", FileStatus::Missing),
        candidate("/etc/app/Conf.toml", FileStatus::Missing),
    ];
    match locate(&cands) {
        Err(ConfigError::NotFound) => {},
        other => panic!("unexpected outcome: {:?}", other),
    }
}

#[test]
fn empty_candidate_list_is_not_found() {
    match locate(&Vec::new()) {
        Err(ConfigError::NotFound) => {},
        other => panic!("unexpected outcome: {:?}", other),
    }
}

#[test]
fn first_regular_file_wins() {
    let cands = vec![
        candidate("./Conf.toml", FileStatus::Missing),
        candidate("/etc/app/Conf.toml", FileStatus::RegularFile),
        candidate("/opt/app/Conf.toml", FileStatus::RegularFile),
    ];
    assert_eq!(locate(&cands).unwrap(), "/etc/app/Conf.toml");
}

#[test]
fn ambiguous_path_is_not_skipped() {
    let cands = vec![
        candidate("./Conf.toml", FileStatus::OtherKind),
        candidate("/etc/app/Conf.toml", FileStatus::RegularFile),
    ];
    let err = locate(&cands).unwrap_err();
    match &err {
        ConfigError::BadFilePath { path, reason } => {
            assert_eq!(path, "./Conf.toml");
            assert_eq!(reason, "exists but is not a regular file");
        },
        other => panic!("unexpected error: {:?}", other),
    }
    assert_eq!(err.message(), "./Conf.toml is not a valid config path");
}

#[test]
fn candidate_paths_join_directory_and_filename() {
    assert_eq!(candidate_path("/etc/app", "Conf.toml"), "/etc/app/Conf.toml");
}

#[test]
fn fixed_messages_match_the_display_contract() {
    assert_eq!(ConfigError::NotFound.message(), "config file was not found");
    assert_eq!(
        ConfigError::IoFailure.message(),
        "I/O error while reading the config file"
    );
}

#[test]
fn descriptions_are_static_categories_distinct_from_messages() {
    let errors = vec![
        ConfigError::NotFound,
        ConfigError::IoFailure,
        ConfigError::BadFilePath { path: "p".to_string(), reason: "r".to_string() },
        ConfigError::BadEnvironmentSelector { selector: "x".to_string() },
        ConfigError::BadEnvironmentEntry { name: "n".to_string(), path: "p".to_string() },
        ConfigError::TypeMismatch {
            key: "k".to_string(),
            expected: "Integer".to_string(),
            actual: "String".to_string(),
            path: None,
        },
        ConfigError::ParseFailure {
            message: "m".to_string(),
            path: "p".to_string(),
            fragment: "f".to_string(),
            span: None,
        },
    ];
    for e in &errors {
        assert!(!e.description().is_empty());
        assert_ne!(e.description(), e.message());
    }
    assert_eq!(
        ConfigError::IoFailure.description(),
        "there was an I/O error while reading the config file"
    );
    assert_eq!(
        errors[5].description(),
        "a key was specified with a value of the wrong type"
    );
    assert_eq!(errors[2].description(), "the config file path is invalid");
    assert_eq!(
        errors[4].description(),
        "an environment specified as `[environment]` is invalid"
    );
}
