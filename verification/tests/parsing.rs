use rlf::ast::{DefinitionKind, PhraseBody, PhraseDefinition, Reference, Segment, Selector, VariantEntry, VariantEntryBody};
use rlf::errors::{LoadWarning, ParseError};
use rlf::language_meta::{valid_tags, valid_variant_keys};
use rlf::lint::lint_definitions;
use rlf::parser::file::parse_file;
use rlf::parser::template::parse_template;
use rlf::transforms::TransformRegistry;

#[test]
fn template_literal_and_interpolation() {
    let t = parse_template("Draw {$n} {card:$n}.").unwrap();
    assert_eq!(t.segments.len(), 5);
    match &t.segments[0] {
        Segment::Literal(s) => assert_eq!(s, "Draw "),
        _ => panic!("expected literal"),
    }
    match &t.segments[1] {
        Segment::Interpolation { reference: Reference::Parameter(p), selectors, transforms } => {
            assert_eq!(p, "n");
            assert!(selectors.is_empty());
            assert!(transforms.is_empty());
        },
        _ => panic!("expected parameter"),
    }
    match &t.segments[3] {
        Segment::Interpolation { reference: Reference::Identifier(name), selectors, .. } => {
            assert_eq!(name, "card");
            assert_eq!(selectors.len(), 1);
            match &selectors[0] {
                Selector::Parameter(p) => assert_eq!(p, "n"),
                _ => panic!("expected parameter selector"),
            }
        },
        _ => panic!("expected identifier"),
    }
}

#[test]
fn template_escapes_merge_into_literal() {
    let t = parse_template("a {{b}} c").unwrap();
    assert_eq!(t.segments.len(), 1);
    match &t.segments[0] {
        Segment::Literal(s) => assert_eq!(s, "a {b} c"),
        _ => panic!("expected literal"),
    }
}

#[test]
fn template_unclosed_brace_is_error() {
    match parse_template("oops {") {
        Err(ParseError::Syntax { line, .. }) => assert_eq!(line, 1),
        other => panic!("unexpected: {:?}", other),
    }
}

#[test]
fn file_definitions() {
    let defs = parse_file(
        "// comment\nhello = \"Hello\";\ncard = :a { one: \"card\", *other: \"cards\" };\ngreet($name) = \"Hi {$name}\";",
    )
    .unwrap();
    assert_eq!(defs.len(), 3);
    assert_eq!(defs[0].name, "hello");
    assert_eq!(defs[0].kind, DefinitionKind::Term);
    assert_eq!(defs[1].tags.len(), 1);
    match &defs[1].body {
        PhraseBody::Variants(es) => {
            assert_eq!(es.len(), 2);
            assert!(es[1].is_default);
        },
        _ => panic!("expected variants"),
    }
    assert_eq!(defs[2].kind, DefinitionKind::Phrase);
    assert_eq!(defs[2].parameters, vec!["name"]);
}

#[test]
fn file_missing_semicolon_is_error() {
    assert!(parse_file("a = \"x\"").is_err());
}

#[test]
fn lint_verbose_wrapper_and_missing_from() {
    let defs = parse_file(
        "w($p) = :from($p) \"{$p}\";\nm($t) = \"{$t:one}\";\nok($t) = :from($t) \"big {$t}\";",
    )
    .unwrap();
    let warnings = lint_definitions(&defs, "en");
    assert_eq!(warnings.len(), 2);
    match &warnings[0] {
        LoadWarning::VerboseTransparentWrapper { name, language } => {
            assert_eq!(name, "w");
            assert_eq!(language, "en");
        },
        other => panic!("unexpected: {:?}", other),
    }
    match &warnings[1] {
        LoadWarning::LikelyMissingFrom { name, parameter, .. } => {
            assert_eq!(name, "m");
            assert_eq!(parameter, "t");
        },
        other => panic!("unexpected: {:?}", other),
    }
}

fn from_block(entries: &[(&str, &str)]) -> PhraseDefinition {
    let entries = entries
        .iter()
        .map(|(key, body)| VariantEntry {
            keys: vec![key.to_string()],
            body: VariantEntryBody::Template(parse_template(body).unwrap()),
            is_default: false,
        })
        .collect();
    PhraseDefinition {
        kind: DefinitionKind::Phrase,
        name: "d".to_string(),
        parameters: vec!["s".to_string()],
        tags: Vec::new(),
        from_param: Some("s".to_string()),
        match_params: Vec::new(),
        body: PhraseBody::Variants(entries),
        has_empty_parens: false,
    }
}

#[test]
fn lint_redundant_selector_and_passthrough() {
    let defs = vec![from_block(&[("nom", "{$s:nom} x"), ("acc", "{$s:acc} x")])];
    let warnings = lint_definitions(&defs, "ru");
    assert_eq!(warnings.len(), 3);
    match &warnings[0] {
        LoadWarning::RedundantPassthroughBlock { name, language } => {
            assert_eq!(name, "d");
            assert_eq!(language, "ru");
        },
        other => panic!("unexpected: {:?}", other),
    }
    match &warnings[1] {
        LoadWarning::RedundantFromSelector { variant_key, parameter, .. } => {
            assert_eq!(variant_key, "nom");
            assert_eq!(parameter, "s");
        },
        other => panic!("unexpected: {:?}", other),
    }
    match &warnings[2] {
        LoadWarning::RedundantFromSelector { variant_key, .. } => assert_eq!(variant_key, "acc"),
        other => panic!("unexpected: {:?}", other),
    }
}

#[test]
fn lint_no_passthrough_when_text_differs() {
    let defs = vec![from_block(&[("nom", "{$s:nom} x"), ("acc", "y {$s:acc}")])];
    let warnings = lint_definitions(&defs, "ru");
    assert_eq!(warnings.len(), 2);
    for w in &warnings {
        match w {
            LoadWarning::RedundantFromSelector { .. } => {},
            other => panic!("unexpected: {:?}", other),
        }
    }
}

#[test]
fn lint_no_passthrough_with_two_references() {
    let defs = vec![from_block(&[("nom", "{$s:nom} {$s:nom}")])];
    let warnings = lint_definitions(&defs, "ru");
    assert_eq!(warnings.len(), 2);
    match &warnings[0] {
        LoadWarning::RedundantFromSelector { .. } => {},
        other => panic!("unexpected: {:?}", other),
    }
}

#[test]
fn lint_clean_definitions() {
    let defs = parse_file("a = \"x\";\ng($n) = \"{$n}\";").unwrap();
    assert!(lint_definitions(&defs, "en").is_empty());
}

#[test]
fn language_metadata() {
    assert!(valid_tags("de").unwrap().contains(&"masc"));
    assert!(valid_tags("xx").is_none());
    assert!(valid_variant_keys("ru").unwrap().contains(&"nom"));
}

#[test]
fn transform_registry_lookup() {
    let reg = TransformRegistry::new();
    assert!(reg.has_transform("cap", "ja"));
    assert!(reg.has_transform("a", "en"));
    assert!(reg.has_transform("an", "en"));
    assert!(reg.has_transform("der", "de"));
    assert!(reg.has_transform("die", "de"));
    assert!(!reg.has_transform("der", "en"));
    assert!(reg.get("nosuch", "en").is_none());
}
