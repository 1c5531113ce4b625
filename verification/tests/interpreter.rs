use rlf::errors::{EvalError, LoadError, LoadWarning, ParseError};
use rlf::locale::Locale;
use rlf::plural::plural_category;
use rlf::registry::PhraseRegistry;
use rlf::types::{Phrase, PhraseId, Tag, Value, VariantKey};

fn registry_with(src: &str) -> PhraseRegistry {
    let mut registry = PhraseRegistry::new();
    registry.load_phrases(src).unwrap();
    registry
}

fn num(n: i64) -> Value {
    Value::Number(n)
}

fn text(s: &str) -> Value {
    Value::String(s.to_string())
}

#[test]
fn registry_load_counts_definitions() {
    let mut registry = PhraseRegistry::new();
    let count = registry
        .load_phrases("hello = \"Hello, world!\";\ncard = { one: \"card\", other: \"cards\" };")
        .unwrap();
    assert_eq!(count, 2);
    assert!(registry.get("hello").is_some());
    assert!(registry.get("card").is_some());
    assert!(registry.get("missing").is_none());
}

#[test]
fn registry_get_phrase_simple() {
    let registry = registry_with("hello = \"Hello, world!\";");
    let p = registry.get_phrase("en", "hello").unwrap();
    assert_eq!(p.text, "Hello, world!");
}

#[test]
fn registry_call_phrase_with_argument() {
    let registry = registry_with("greet($name) = \"Hello, {$name}!\";");
    let p = registry.call_phrase("en", "greet", &[text("World")]).unwrap();
    assert_eq!(p.text, "Hello, World!");
}

#[test]
fn registry_eval_str_selects_plural_variant() {
    let mut registry = registry_with("card = { one: \"card\", other: \"cards\" };");
    let one = registry.eval_str("Draw {$n} {card:$n}.", "en", vec![("n".to_string(), num(1))]).unwrap();
    assert_eq!(one.text, "Draw 1 card.");
    let three = registry.eval_str("Draw {$n} {card:$n}.", "en", vec![("n".to_string(), num(3))]).unwrap();
    assert_eq!(three.text, "Draw 3 cards.");
}

#[test]
fn registry_eval_str_caches_templates() {
    let mut registry = registry_with("a = \"x\";");
    assert_eq!(registry.template_cache_len(), 0);
    registry.eval_str("{a}", "en", Vec::new()).unwrap();
    assert_eq!(registry.template_cache_len(), 1);
    registry.eval_str("{a}", "en", Vec::new()).unwrap();
    assert_eq!(registry.template_cache_len(), 1);
    registry.eval_str("{a} {a}", "en", Vec::new()).unwrap();
    assert_eq!(registry.template_cache_len(), 2);
    registry.clear_template_cache();
    assert_eq!(registry.template_cache_len(), 0);
}

#[test]
fn registry_eval_str_parse_error() {
    let mut registry = PhraseRegistry::new();
    match registry.eval_str("{", "en", Vec::new()) {
        Err(EvalError::PhraseNotFound { name }) => assert!(name.starts_with("parse error: syntax error at 1:")),
        other => panic!("unexpected: {:?}", other),
    }
    assert_eq!(registry.template_cache_len(), 0);
}

#[test]
fn registry_phrase_not_found() {
    let registry = PhraseRegistry::new();
    match registry.get_phrase("en", "nope") {
        Err(EvalError::PhraseNotFound { name }) => assert_eq!(name, "nope"),
        other => panic!("unexpected: {:?}", other),
    }
}

#[test]
fn registry_argument_count_error() {
    let registry = registry_with("greet($name) = \"Hello, {$name}!\";");
    match registry.get_phrase("en", "greet") {
        Err(EvalError::ArgumentCount { phrase, expected, got }) => {
            assert_eq!(phrase, "greet");
            assert_eq!(expected, 1);
            assert_eq!(got, 0);
        },
        other => panic!("unexpected: {:?}", other),
    }
    match registry.call_phrase("en", "greet", &[num(1), num(2)]) {
        Err(EvalError::ArgumentCount { expected, got, .. }) => {
            assert_eq!(expected, 1);
            assert_eq!(got, 2);
        },
        other => panic!("unexpected: {:?}", other),
    }
}

#[test]
fn registry_insert_replaces_same_name() {
    let mut registry = registry_with("a = \"first\";");
    registry.load_phrases("a = \"second\";").unwrap();
    assert_eq!(registry.get_phrase("en", "a").unwrap().text, "second");
}

#[test]
fn registry_lookup_by_id() {
    let registry = registry_with("hello = \"Hello!\";\ngreet($n) = \"Hi {$n}\";");
    let id = PhraseId::from_name("hello");
    assert_eq!(registry.name_for_id(id.as_u64()), Some("hello"));
    assert_eq!(registry.get_phrase_by_id(id.as_u64(), "en").unwrap().text, "Hello!");
    assert!(registry.get_by_id(id.as_u64()).is_some());
    let greet = PhraseId::from_name("greet").as_u64();
    assert_eq!(registry.phrase_parameter_count(greet), 1);
    assert_eq!(registry.call_phrase_by_id(greet, "en", &[text("Bo")]).unwrap().text, "Hi Bo");
    assert_eq!(registry.phrase_parameter_count(12345), 0);
    match registry.get_phrase_by_id(12345, "en") {
        Err(EvalError::PhraseNotFoundById { id }) => assert_eq!(id, 12345),
        other => panic!("unexpected: {:?}", other),
    }
}

#[test]
fn phrase_id_is_fnv1a_of_name() {
    assert_eq!(PhraseId::from_name("hello").as_u64(), 0xa430d84680aabd0b);
    assert_eq!(PhraseId::from_name("").as_u64(), 0xcbf29ce484222325);
}

#[test]
fn phrase_id_with_registry() {
    let registry = registry_with("hello = \"Hello!\";\ngreet($n) = \"Hi {$n}\";");
    let hello = PhraseId::from_name("hello");
    assert_eq!(hello.resolve_with_registry(&registry, "en").unwrap().text, "Hello!");
    let greet = PhraseId::from_name("greet");
    assert_eq!(greet.call_with_registry(&registry, "en", &[num(2)]).unwrap().text, "Hi 2");
}

#[test]
fn registry_parse_error_reports_position() {
    let mut registry = PhraseRegistry::new();
    match registry.load_phrases("a = \"x\";\nb = ;") {
        Err(ParseError::Syntax { line, .. }) => assert_eq!(line, 2),
        other => panic!("unexpected: {:?}", other),
    }
    assert!(registry.get("a").is_none());
}

#[test]
fn term_with_selector_and_tags() {
    let registry = registry_with(
        "card = :a { one: \"card\", other: \"cards\" };\nevent = :an \"event\";\ndraw_one = \"Draw {@a card}.\";\nplay_one = \"Play {@a event}.\";",
    );
    assert_eq!(registry.get_phrase("en", "draw_one").unwrap().text, "Draw a card.");
    assert_eq!(registry.get_phrase("en", "play_one").unwrap().text, "Play an event.");
}

#[test]
fn transforms_cap_and_chain() {
    let registry = registry_with(
        "card = :a \"card\";\ntitle = \"{@cap card}\";\nheading = \"{@cap @a card}\";\nloud = \"{@upper card}\";",
    );
    assert_eq!(registry.get_phrase("en", "title").unwrap().text, "Card");
    assert_eq!(registry.get_phrase("en", "heading").unwrap().text, "A card");
    assert_eq!(registry.get_phrase("en", "loud").unwrap().text, "CARD");
}

#[test]
fn unknown_transform_is_error() {
    let registry = registry_with("x = \"{@nosuch y}\";\ny = \"y\";");
    match registry.get_phrase("en", "x") {
        Err(EvalError::UnknownTransform { name }) => assert_eq!(name, "nosuch"),
        other => panic!("unexpected: {:?}", other),
    }
}

#[test]
fn cyclic_reference_is_detected() {
    let registry = registry_with("a = \"{b}\";\nb = \"{a}\";");
    match registry.get_phrase("en", "a") {
        Err(EvalError::CyclicReference { chain }) => assert_eq!(chain, vec!["a", "b", "a"]),
        other => panic!("unexpected: {:?}", other),
    }
}

#[test]
fn unknown_parameter_is_error() {
    let registry = registry_with("p($x) = \"{$y}\";");
    match registry.call_phrase("en", "p", &[num(1)]) {
        Err(EvalError::UnknownParameter { name }) => assert_eq!(name, "y"),
        other => panic!("unexpected: {:?}", other),
    }
}

#[test]
fn term_called_with_arguments_is_error() {
    let registry = registry_with("card = \"card\";\nx = \"{card(1)}\";");
    match registry.get_phrase("en", "x") {
        Err(EvalError::ArgumentsToTerm { name }) => assert_eq!(name, "card"),
        other => panic!("unexpected: {:?}", other),
    }
}

#[test]
fn phrase_used_as_term_is_error() {
    let registry = registry_with("greet($n) = \"hi {$n}\";\nx = \"{greet}\";");
    match registry.get_phrase("en", "x") {
        Err(EvalError::SelectorOnPhrase { name }) => assert_eq!(name, "greet"),
        other => panic!("unexpected: {:?}", other),
    }
}

#[test]
fn russian_plural_categories() {
    let registry = registry_with("card = { one: \"карта\", few: \"карты\", many: \"карт\", other: \"карты\" };\ndraw($n) = \"{$n} {card:$n}\";");
    assert_eq!(registry.call_phrase("ru", "draw", &[num(1)]).unwrap().text, "1 карта");
    assert_eq!(registry.call_phrase("ru", "draw", &[num(3)]).unwrap().text, "3 карты");
    assert_eq!(registry.call_phrase("ru", "draw", &[num(5)]).unwrap().text, "5 карт");
    assert_eq!(registry.call_phrase("ru", "draw", &[num(21)]).unwrap().text, "21 карта");
}

#[test]
fn plural_category_values() {
    assert_eq!(plural_category("en", 1), "one");
    assert_eq!(plural_category("en", 2), "other");
    assert_eq!(plural_category("ru", 3), "few");
    assert_eq!(plural_category("ru", 11), "many");
    assert_eq!(plural_category("ar", 0), "zero");
    assert_eq!(plural_category("ar", 2), "two");
    assert_eq!(plural_category("ja", 1), "other");
    assert_eq!(plural_category("xx", 1), plural_category("en", 1));
}

#[test]
fn missing_variant_is_error() {
    let registry = registry_with("card = { one: \"card\", other: \"cards\" };\nx = \"{card:acc}\";");
    match registry.get_phrase("en", "x") {
        Err(EvalError::MissingVariant { key, available, .. }) => {
            assert_eq!(key, "acc");
            assert_eq!(available, vec!["one", "other"]);
        },
        other => panic!("unexpected: {:?}", other),
    }
}

#[test]
fn variant_fallback_to_shorter_key() {
    let registry = registry_with("card = { nom: \"card\", nom.other: \"cards\" };\na = \"{card:nom:other}\";\nb = \"{card:nom:one}\";");
    assert_eq!(registry.get_phrase("en", "a").unwrap().text, "cards");
    assert_eq!(registry.get_phrase("en", "b").unwrap().text, "card");
}

#[test]
fn match_block_selects_branch() {
    let registry = registry_with("cards($n) = :match($n) { 1: \"a card\", *other: \"{$n} cards\" };");
    assert_eq!(registry.call_phrase("en", "cards", &[num(1)]).unwrap().text, "a card");
    assert_eq!(registry.call_phrase("en", "cards", &[num(4)]).unwrap().text, "4 cards");
}

#[test]
fn from_modifier_inherits_variants_and_tags() {
    let registry = registry_with(
        "card = :a { one: \"card\", other: \"cards\" };\nbig($t) = :from($t) \"big {$t}\";\nx = \"{big(card):other}\";",
    );
    let big = registry.get_phrase("en", "x").unwrap();
    assert_eq!(big.text, "big cards");
    let card = registry.get_phrase("en", "card").unwrap();
    let p = registry.call_phrase("en", "big", &[Value::Phrase(card)]).unwrap();
    assert_eq!(p.text, "big card");
    assert!(p.has_tag("a"));
    assert_eq!(p.variant("one"), "big card");
    assert_eq!(p.variant("other"), "big cards");
}

#[test]
fn phrase_methods() {
    let p = Phrase {
        text: "card".to_string(),
        variants: vec![
            (VariantKey::new("nom"), "card".to_string()),
            (VariantKey::new("nom.other"), "cards".to_string()),
        ],
        tags: vec![Tag::new("a")],
    };
    assert_eq!(p.variant("nom.other"), "cards");
    assert_eq!(p.variant("nom.one"), "card");
    assert!(p.has_tag("a"));
    assert!(!p.has_tag("an"));
    assert_eq!(p.first_tag().map(|t| t.as_str().to_string()), Some("a".to_string()));
    let joined = Phrase::join(&[Phrase::from_text("a".to_string()), Phrase::from_text("b".to_string())], ", ");
    assert_eq!(joined.text, "a, b");
    let shouted = p.map_text(|t| t.to_uppercase());
    assert_eq!(shouted.text, "CARD");
    assert_eq!(shouted.variant("nom.other"), "cards");
}

#[test]
fn value_accessors() {
    assert_eq!(num(3).as_number(), Some(3));
    assert_eq!(text("x").as_number(), None);
    assert_eq!(text("x").as_string(), Some("x"));
    assert!(num(1).as_phrase().is_none());
    let v = Value::Phrase(Phrase {
        text: "card".to_string(),
        variants: vec![(VariantKey::new("one"), "card".to_string())],
        tags: vec![Tag::new("a")],
    });
    assert!(v.has_tag("a"));
    assert_eq!(v.get_variant("one"), Some("card"));
    assert_eq!(num(1).get_variant("one"), None);
    assert_eq!(num(42).display(), "42");
}

#[test]
fn locale_load_and_get() {
    let mut locale = Locale::new();
    assert_eq!(locale.language(), "en");
    let n = locale.load_translations_str("en", "hello = \"Hello!\";\ngreet($n) = \"Hi {$n}\";").unwrap();
    assert_eq!(n, 2);
    assert_eq!(locale.get_phrase("hello").unwrap().text, "Hello!");
    assert_eq!(locale.call_phrase("greet", &[text("Ann")]).unwrap().text, "Hi Ann");
    assert_eq!(locale.phrase_parameter_count(PhraseId::from_name("greet").as_u64()), 1);
    assert_eq!(locale.name_for_id(PhraseId::from_name("hello").as_u64()), Some("hello"));
    let hello = PhraseId::from_name("hello");
    assert_eq!(hello.resolve(&locale).unwrap().text, "Hello!");
    assert_eq!(hello.name(&locale), Some("hello"));
    assert!(!hello.has_parameters(&locale));
    let greet = PhraseId::from_name("greet");
    assert!(greet.has_parameters(&locale));
    assert_eq!(greet.parameter_count(&locale), 1);
    assert_eq!(greet.call(&locale, &[num(7)]).unwrap().text, "Hi 7");
}

#[test]
fn locale_load_replaces_language() {
    let mut locale = Locale::with_language("ru");
    locale.load_translations_str("ru", "a = \"один\";\nb = \"два\";").unwrap();
    locale.load_translations_str("ru", "a = \"раз\";").unwrap();
    assert_eq!(locale.get_phrase("a").unwrap().text, "раз");
    assert!(locale.get_phrase("b").is_err());
}

#[test]
fn locale_languages_are_separate() {
    let mut locale = Locale::new();
    locale.load_translations_str("en", "a = \"one\";").unwrap();
    locale.load_translations_str("de", "a = \"eins\";").unwrap();
    assert_eq!(locale.get_phrase("a").unwrap().text, "one");
    locale.set_language("de");
    assert_eq!(locale.language(), "de");
    assert_eq!(locale.get_phrase("a").unwrap().text, "eins");
    assert!(locale.registry_for("en").is_some());
    assert!(locale.registry_for("fr").is_none());
    locale.set_language("fr");
    match locale.get_phrase("a") {
        Err(EvalError::PhraseNotFound { name }) => assert_eq!(name, "a"),
        other => panic!("unexpected: {:?}", other),
    }
    match locale.get_phrase_by_id(PhraseId::from_name("a").as_u64()) {
        Err(EvalError::PhraseNotFoundById { .. }) => {},
        other => panic!("unexpected: {:?}", other),
    }
}

#[test]
fn locale_parse_error_names_source() {
    let mut locale = Locale::new();
    match locale.load_translations_str("en", "a = ;") {
        Err(LoadError::Parse { path, line, column, .. }) => {
            assert_eq!(path, "<en>");
            assert_eq!(line, 1);
            assert_eq!(column, 1);
        },
        other => panic!("unexpected: {:?}", other),
    }
    assert!(locale.registry_for("en").is_none());
}

#[test]
fn locale_reload_needs_a_path() {
    let mut locale = Locale::new();
    locale.load_translations_str("en", "a = \"x\";").unwrap();
    match locale.reload_source("en") {
        Err(LoadError::NoPathForReload { language }) => assert_eq!(language, "en"),
        other => panic!("unexpected: {:?}", other),
    }
    locale.load_translations_content("en", "strings/en.rlf", "a = \"y\";").unwrap();
    assert_eq!(locale.reload_source("en").unwrap(), "strings/en.rlf");
    assert_eq!(locale.get_phrase("a").unwrap().text, "y");
    locale.load_translations_str("en", "a = \"z\";").unwrap();
    assert!(locale.reload_source("en").is_err());
}

#[test]
fn locale_string_context_selects_variant() {
    let mut locale = Locale::new();
    locale.load_translations_str("en", "label = { *plain: \"Card\", ui: \"CARD\" };").unwrap();
    assert_eq!(locale.get_phrase("label").unwrap().text, "Card");
    locale.set_string_context(Some("ui"));
    assert_eq!(locale.string_context(), Some("ui"));
    assert_eq!(locale.get_phrase("label").unwrap().text, "CARD");
    locale.set_string_context(None);
    assert_eq!(locale.string_context(), None);
}

#[test]
fn locale_eval_str() {
    let mut locale = Locale::new();
    match locale.eval_str("x", Vec::new()) {
        Err(EvalError::PhraseNotFound { name }) => assert_eq!(name, "no translations loaded for language 'en'"),
        other => panic!("unexpected: {:?}", other),
    }
    locale.load_translations_str("en", "card = { one: \"card\", other: \"cards\" };").unwrap();
    let p = locale.eval_str("{$n} {card:$n}", vec![("n".to_string(), num(2))]).unwrap();
    assert_eq!(p.text, "2 cards");
    assert_eq!(locale.template_cache_len(), 1);
    locale.clear_template_cache();
    assert_eq!(locale.template_cache_len(), 0);
}

#[test]
fn locale_validate_translations() {
    let mut locale = Locale::new();
    locale.load_translations_str("en", "a = \"a\";\ngreet($n) = \"hi {$n}\";").unwrap();
    locale.load_translations_str("ru", "greet($n, $m) = \"привет {$n}\";\nzzz = \"z\";\na = \"а\";").unwrap();
    let warnings = locale.validate_translations("en", "ru");
    assert_eq!(warnings.len(), 2);
    match &warnings[0] {
        LoadWarning::ParameterCountMismatch { name, language, source_count, translation_count } => {
            assert_eq!(name, "greet");
            assert_eq!(language, "ru");
            assert_eq!(*source_count, 1);
            assert_eq!(*translation_count, 2);
        },
        other => panic!("unexpected: {:?}", other),
    }
    match &warnings[1] {
        LoadWarning::UnknownPhrase { name, .. } => assert_eq!(name, "zzz"),
        other => panic!("unexpected: {:?}", other),
    }
    assert!(locale.validate_translations("en", "en").is_empty());
    assert!(locale.validate_translations("en", "fr").is_empty());
}

#[test]
fn error_messages() {
    let e = EvalError::ArgumentCount { phrase: "p".to_string(), expected: 1, got: 2 };
    assert_eq!(e.message(), "phrase 'p' expects 1 arguments, got 2");
    let e = EvalError::PhraseNotFoundById { id: 7 };
    assert_eq!(e.message(), "phrase not found for id: 7");
    let e = LoadError::NoPathForReload { language: "en".to_string() };
    assert_eq!(e.message(), "cannot reload 'en': was loaded from string, not file");
    let w = LoadWarning::VerboseTransparentWrapper { name: "w".to_string(), language: "en".to_string() };
    assert_eq!(
        w.message(),
        "warning: phrase 'w' in 'en' uses ':from($p) \"{$p}\"'; use body-less ':from($p);' instead"
    );
}

#[test]
fn phrase_id_display() {
    assert_eq!(PhraseId::from_name("hello").display(), "PhraseId(a430d84680aabd0b)");
    assert_eq!(PhraseId(1).display(), "PhraseId(0000000000000001)");
}

#[test]
fn value_conversions() {
    assert_eq!(Value::from(3i32).as_number(), Some(3));
    assert_eq!(Value::from(-4i64).as_number(), Some(-4));
    assert_eq!(Value::from(5u32).as_number(), Some(5));
    assert_eq!(Value::from(6usize).as_number(), Some(6));
    assert_eq!(Value::from(u64::MAX).as_number(), Some(-1));
    assert_eq!(Value::from("s".to_string()).as_string(), Some("s"));
    let p = Value::from(Phrase::from_text("t".to_string()));
    assert_eq!(p.as_phrase().map(|p| p.text.clone()), Some("t".to_string()));
}

#[test]
fn registry_definitions_in_order() {
    let registry = registry_with("b = \"1\";\na = \"2\";");
    let names: Vec<&str> = registry.definitions().iter().map(|d| d.name.as_str()).collect();
    assert_eq!(names, vec!["b", "a"]);
    assert_eq!(registry.phrase_names(), vec!["b", "a"]);
}

#[test]
fn locale_defaults() {
    let locale = Locale::default();
    assert_eq!(locale.language(), "en");
    assert!(locale.registry().is_none());
    assert_eq!(PhraseRegistry::default().template_cache_len(), 0);
}

#[test]
fn key_and_phrase_conversions() {
    let k = VariantKey::from("nom.one".to_string());
    assert_eq!(k.as_str(), "nom.one");
    let s: String = Phrase::from_text("hello".to_string()).into();
    assert_eq!(s, "hello");
}

#[test]
fn from_modifier_needs_a_phrase_argument() {
    let registry = registry_with("big($t) = :from($t) \"big {$t}\";");
    match registry.call_phrase("en", "big", &[num(3)]) {
        Err(EvalError::PhraseNotFound { name }) => {
            assert_eq!(name, "parameter 't' must be a Phrase for :from modifier")
        }
        other => panic!("unexpected: {:?}", other),
    }
    let plain = registry.call_phrase("en", "big", &[Value::Phrase(Phrase::from_text("box".to_string()))]).unwrap();
    assert_eq!(plain.text, "big box");
    assert!(plain.variants.is_empty());
}

#[test]
fn join_keeps_only_shared_variants() {
    let a = Phrase {
        text: "a".to_string(),
        variants: vec![
            (VariantKey::new("one"), "a1".to_string()),
            (VariantKey::new("other"), "a2".to_string()),
        ],
        tags: vec![Tag::new("x")],
    };
    let b = Phrase {
        text: "b".to_string(),
        variants: vec![(VariantKey::new("one"), "b1".to_string())],
        tags: vec![],
    };
    let joined = Phrase::join(&[a, b], " / ");
    assert_eq!(joined.text, "a / b");
    assert_eq!(joined.variants.len(), 1);
    assert_eq!(joined.variants[0].0.as_str(), "one");
    assert_eq!(joined.variants[0].1, "a1 / b1");
    assert!(joined.tags.is_empty());
}

#[test]
fn suggestions_within_distance_nearest_first() {
    let available = vec!["one".to_string(), "on".to_string()];
    assert_eq!(rlf::errors::compute_suggestions("oen", &available), vec!["on".to_string()]);
    let many = vec![
        "other".to_string(),
        "othr".to_string(),
        "oter".to_string(),
        "others".to_string(),
        "xyz".to_string(),
        "otherss".to_string(),
    ];
    let r = rlf::errors::compute_suggestions("other", &many);
    assert_eq!(r, vec!["othr".to_string(), "oter".to_string(), "others".to_string()]);
}

