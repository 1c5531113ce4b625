use rlf::context::EvalContext;
use rlf::errors::EvalError;
use rlf::registry::PhraseRegistry;
use rlf::transforms::TransformKind;
use rlf::types::{Phrase, Tag, Value};

fn eval(lang: &str, src: &str, name: &str) -> Result<String, EvalError> {
    let mut registry = PhraseRegistry::new();
    registry.load_phrases(src).unwrap();
    registry.get_phrase(lang, name).map(|p| p.text)
}

#[test]
fn german_articles_by_case() {
    let src = "hund = :masc \"Hund\";\nkatze = :fem \"Katze\";\nnom = \"{@der hund}\";\nacc = \"{@der:acc hund}\";\ndat = \"{@die:dat katze}\";\nein = \"{@ein:acc hund}\";";
    assert_eq!(eval("de", src, "nom").unwrap(), "der Hund");
    assert_eq!(eval("de", src, "acc").unwrap(), "den Hund");
    assert_eq!(eval("de", src, "dat").unwrap(), "der Katze");
    assert_eq!(eval("de", src, "ein").unwrap(), "einen Hund");
}

#[test]
fn german_article_needs_gender_tag() {
    let src = "ding = \"Ding\";\nx = \"{@der ding}\";";
    match eval("de", src, "x") {
        Err(EvalError::MissingTag { transform, expected, phrase }) => {
            assert_eq!(transform, "der");
            assert_eq!(expected, vec!["masc", "fem", "neut"]);
            assert_eq!(phrase, "Ding");
        },
        other => panic!("unexpected: {:?}", other),
    }
}

#[test]
fn missing_tag_message_quotes_the_tags() {
    let e = EvalError::MissingTag {
        transform: "a".to_string(),
        expected: vec!["a".to_string(), "an".to_string()],
        phrase: "card".to_string(),
    };
    assert_eq!(e.message(), "transform '@a' requires tag [\"a\", \"an\"] on phrase 'card'");
}

#[test]
fn lower_and_upper_case() {
    let src = "w = \"MiXeD\";\nlo = \"{@lower w}\";\nup = \"{@upper w}\";";
    assert_eq!(eval("en", src, "lo").unwrap(), "mixed");
    assert_eq!(eval("en", src, "up").unwrap(), "MIXED");
}

#[test]
fn turkish_dotted_capital() {
    let src = "w = \"istanbul\";\nup = \"{@upper w}\";";
    assert_eq!(eval("tr", src, "up").unwrap(), "İSTANBUL");
}

#[test]
fn cap_first_grapheme_only() {
    let src = "w = \"élan vital\";\nc = \"{@cap w}\";";
    assert_eq!(eval("fr", src, "c").unwrap(), "Élan vital");
}

#[test]
fn korean_particles_follow_final_consonant() {
    let src = "book = \"책\";\napple = \"사과\";\na = \"{book}{@particle:obj book}\";\nb = \"{apple}{@particle:obj apple}\";\nc = \"{@particle:topic book}\";";
    assert_eq!(eval("ko", src, "a").unwrap(), "책을");
    assert_eq!(eval("ko", src, "b").unwrap(), "사과를");
    assert_eq!(eval("ko", src, "c").unwrap(), "은");
}

#[test]
fn spanish_alias_la() {
    let src = "casa = :fem \"casa\";\nx = \"{@la casa}\";";
    assert_eq!(eval("es", src, "x").unwrap(), "la casa");
}

#[test]
fn missing_variant_suggests_near_keys() {
    let src = "card = { one: \"card\", other: \"cards\" };\nx = \"{card:othr}\";";
    match eval("en", src, "x") {
        Err(EvalError::MissingVariant { suggestions, .. }) => assert_eq!(suggestions, vec!["other"]),
        other => panic!("unexpected: {:?}", other),
    }
}

#[test]
fn parameters_and_names_are_separate() {
    let mut registry = PhraseRegistry::new();
    registry
        .load_phrases("card = \"the card\";\np($card) = \"{$card} / {card}\";")
        .unwrap();
    let p = registry.call_phrase("en", "p", &[Value::String("arg".to_string())]).unwrap();
    assert_eq!(p.text, "arg / the card");
}

#[test]
fn context_push_and_pop() {
    let params: Vec<(String, Value)> = vec![("n".to_string(), Value::Number(2))];
    let mut ctx = EvalContext::new(&params);
    assert_eq!(ctx.depth(), 0);
    ctx.push_call("a").unwrap();
    ctx.push_call("b").unwrap();
    assert_eq!(ctx.depth(), 2);
    match ctx.push_call("a") {
        Err(EvalError::CyclicReference { chain }) => assert_eq!(chain, vec!["a", "b", "a"]),
        other => panic!("unexpected: {:?}", other),
    }
    ctx.pop_call();
    ctx.pop_call();
    assert_eq!(ctx.depth(), 0);
    assert!(ctx.call_stack().is_empty());
    assert_eq!(ctx.get_param("n").and_then(|v| v.as_number()), Some(2));
    assert!(ctx.get_param("m").is_none());
}

#[test]
fn from_variants_come_in_sorted_key_order() {
    let mut registry = PhraseRegistry::new();
    registry
        .load_phrases("card = { other: \"cards\", one: \"card\" };\nbig($t) = :from($t) \"big {$t}\";\nx = \"{big(card)}\";")
        .unwrap();
    let card = registry.get_phrase("en", "card").unwrap();
    let p = registry.call_phrase("en", "big", &[Value::Phrase(card)]).unwrap();
    let keys: Vec<&str> = p.variants.iter().map(|(k, _)| k.as_str()).collect();
    assert_eq!(keys, vec!["one", "other"]);
}

#[test]
fn hungarian_back_plural_dative() {
    let src = "haz = :back \"ház\";\nx = \"{@inflect:pl.dat haz}\";";
    assert_eq!(eval("hu", src, "x").unwrap(), "házaknak");
}

#[test]
fn hungarian_inflect_doc_example() {
    let v = Value::Phrase(Phrase {
        text: "ház".to_string(),
        variants: Vec::new(),
        tags: vec![Tag::new("back")],
    });
    let ctx = Value::String("pl.dat".to_string());
    let r = TransformKind::HungarianInflect.execute(&v, Some(&ctx), "hu").unwrap();
    assert_eq!(r, "házaknak");
}
