use conf::error::ConfigError;
use conf::parse::parse_document;
use conf::value::{SourceSpan, Value};

#[test]
fn scalars_parse_with_their_tags() {
    let text = "name = \"app\"\ncount = -3\nready = true\noff = false\nratio = 2.75\n";
    let doc = parse_document(text, "Conf.toml").unwrap();
    assert_eq!(doc.sections.len(), 1);
    let sec = &doc.sections[0];
    assert_eq!(sec.name, "global");
    assert_eq!(sec.entries.len(), 5);
    match &sec.entries[0].value {
        Value::Str(s, _) => assert_eq!(s, "app"),
        other => panic!("unexpected value: {:?}", other),
    }
    match &sec.entries[1].value {
        Value::Integer(v, _) => assert_eq!(*v, -3),
        other => panic!("unexpected value: {:?}", other),
    }
    match &sec.entries[2].value {
        Value::Boolean(b, _) => assert!(*b),
        other => panic!("unexpected value: {:?}", other),
    }
    match &sec.entries[3].value {
        Value::Boolean(b, _) => assert!(!*b),
        other => panic!("unexpected value: {:?}", other),
    }
    match &sec.entries[4].value {
        Value::Float(s, _) => assert_eq!(s, "2.75"),
        other => panic!("unexpected value: {:?}", other),
    }
}

#[test]
fn every_parsed_value_carries_its_span() {
    let text = "a = 1\nb =   true\n";
    let doc = parse_document(text, "Conf.toml").unwrap();
    let sec = &doc.sections[0];
    assert_eq!(sec.entries[0].value.span(), Some(SourceSpan { line: 1, column: 5 }));
    assert_eq!(sec.entries[1].value.span(), Some(SourceSpan { line: 2, column: 7 }));
}

#[test]
fn comments_and_blank_lines_are_skipped() {
    let text = "# a comment\n\n   \na = 1\n  # another\n";
    let doc = parse_document(text, "Conf.toml").unwrap();
    assert_eq!(doc.sections.len(), 1);
    assert_eq!(doc.sections[0].entries.len(), 1);
}

#[test]
fn empty_text_parses_to_an_empty_document() {
    let doc = parse_document("", "Conf.toml").unwrap();
    assert_eq!(doc.sections.len(), 0);
}

#[test]
fn headers_open_sections_in_order() {
    let text = "[development]\na = 1\n[staging]\nb = 2\n";
    let doc = parse_document(text, "Conf.toml").unwrap();
    assert_eq!(doc.sections.len(), 2);
    assert_eq!(doc.sections[0].name, "development");
    assert_eq!(doc.sections[1].name, "staging");
}

#[test]
fn header_names_are_trimmed() {
    let text = "[ production ]\na = 1\n";
    let doc = parse_document(text, "Conf.toml").unwrap();
    assert_eq!(doc.sections[0].name, "production");
}

#[test]
fn quoted_content_is_kept_verbatim() {
    let text = "s = \" spaced out \"\n";
    let doc = parse_document(text, "Conf.toml").unwrap();
    match &doc.sections[0].entries[0].value {
        Value::Str(s, _) => assert_eq!(s, " spaced out "),
        other => panic!("unexpected value: {:?}", other),
    }
}

#[test]
fn extreme_integers_parse_exactly() {
    let text = "lo = -9223372036854775808\nhi = 9223372036854775807\n";
    let doc = parse_document(text, "Conf.toml").unwrap();
    match &doc.sections[0].entries[0].value {
        Value::Integer(v, _) => assert_eq!(*v, i64::MIN),
        other => panic!("unexpected value: {:?}", other),
    }
    match &doc.sections[0].entries[1].value {
        Value::Integer(v, _) => assert_eq!(*v, i64::MAX),
        other => panic!("unexpected value: {:?}", other),
    }
}

#[test]
fn out_of_range_integer_is_rejected() {
    let err = parse_document("x = 9223372036854775808\n", "Conf.toml").unwrap_err();
    match &err {
        ConfigError::ParseFailure { path, span, .. } => {
            assert_eq!(path, "Conf.toml");
            assert!(span.is_some());
        },
        other => panic!("unexpected error: {:?}", other),
    }
    assert_eq!(err.message(), "the config file contains invalid syntax");
}

#[test]
fn unrecognized_value_is_rejected_with_position() {
    let err = parse_document("a = 1\nbad = 1a2\n", "Conf.toml").unwrap_err();
    match &err {
        ConfigError::ParseFailure { fragment, span, .. } => {
            assert_eq!(fragment, "bad = 1a2");
            assert_eq!(*span, Some(SourceSpan { line: 2, column: 7 }));
        },
        other => panic!("unexpected error: {:?}", other),
    }
}

#[test]
fn unterminated_header_is_rejected() {
    assert!(parse_document("[production\n", "Conf.toml").is_err());
}

#[test]
fn empty_section_name_is_rejected() {
    assert!(parse_document("[  ]\n", "Conf.toml").is_err());
}

#[test]
fn line_without_equals_is_rejected() {
    assert!(parse_document("just words\n", "Conf.toml").is_err());
}

#[test]
fn missing_key_side_is_rejected() {
    assert!(parse_document("= 5\n", "Conf.toml").is_err());
}

#[test]
fn duplicate_section_is_rejected() {
    assert!(parse_document("[production]\na = 1\n[production]\nb = 2\n", "Conf.toml").is_err());
}
