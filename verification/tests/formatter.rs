use rlf::formatter::{format_definitions, format_file, split_annotations};

#[test]
fn test_simple_definition() {
    let input = "name = \"value\";";
    assert_eq!(format_file(input, 100), "name = \"value\";\n");
}

#[test]
fn test_comment_preserved() {
    let input = "// This is a comment\nname = \"value\";";
    assert_eq!(
        format_file(input, 100),
        "// This is a comment\nname = \"value\";\n"
    );
}

#[test]
fn test_blank_lines_preserved() {
    let input = "a = \"1\";\n\n\nb = \"2\";";
    assert_eq!(format_file(input, 100), "a = \"1\";\n\n\nb = \"2\";\n");
}

#[test]
fn test_tag_spacing_fix() {
    let input = "card = :a{ one: \"card\", other: \"cards\" };";
    assert_eq!(
        format_file(input, 100),
        "card = :a { one: \"card\", other: \"cards\" };\n"
    );
}

#[test]
fn test_tag_spacing_not_in_strings() {
    let input = "name = \"text :a{not a tag}\";";
    assert_eq!(format_file(input, 100), "name = \"text :a{not a tag}\";\n");
}

#[test]
fn test_already_spaced_tag() {
    let input = "card = :a { one: \"card\", other: \"cards\" };";
    assert_eq!(
        format_file(input, 100),
        "card = :a { one: \"card\", other: \"cards\" };\n"
    );
}

#[test]
fn test_expand_long_block() {
    let input = "agent = :masc :anim { nom: \"A\", *acc: \"B\", gen: \"C\", ins: \"D\", inf: \"E\", nom_pl: \"F\", one: \"G\", other: \"H\" };";
    let result = format_file(input, 80);
    assert!(result.contains("{\n"));
    assert!(result.contains("    nom: \"A\",\n"));
    assert!(result.ends_with("};\n"));
}

#[test]
fn test_short_block_stays_single_line() {
    let input = "card = :a { one: \"card\", other: \"cards\" };";
    assert_eq!(
        format_file(input, 100),
        "card = :a { one: \"card\", other: \"cards\" };\n"
    );
}

#[test]
fn test_multiline_input_joined() {
    let input = "cards($n) = :match($n) {\n    1: \"a card\",\n    *other: \"{$n} cards\",\n};";
    let result = format_file(input, 200);
    assert_eq!(
        result,
        "cards($n) = :match($n) { 1: \"a card\", *other: \"{$n} cards\" };\n"
    );
}

#[test]
fn test_multiline_block_preserved_when_long() {
    let input = "cards($n) = :match($n) { 1: \"a card\", *other: \"{$n} cards\" };";
    let result = format_file(input, 40);
    assert!(result.contains("{\n"));
}

#[test]
fn test_base_indent() {
    let input = "name = \"value\";";
    assert_eq!(
        format_definitions(input, "    ", 100),
        "    name = \"value\";\n"
    );
}

#[test]
fn test_base_indent_block_expansion() {
    let input = "agent = :masc :anim { nom: \"A\", *acc: \"B\", gen: \"C\", ins: \"D\", inf: \"E\", nom_pl: \"F\", one: \"G\", other: \"H\" };";
    let result = format_definitions(input, "    ", 80);
    assert!(result.starts_with("    agent"));
    assert!(result.contains("        nom: \"A\",\n"));
}

#[test]
fn test_format_file_idempotent() {
    let input = "card = :a { one: \"card\", other: \"cards\" };\n\nagent = :an { one: \"Agent\", other: \"Agents\" };\n";
    let result = format_file(input, 100);
    let result2 = format_file(&result, 100);
    assert_eq!(result, result2);
}

#[test]
fn test_trailing_comma_in_multiline_block() {
    let input = "x = :tag { a: \"1\", b: \"2\" };";
    let result = format_file(input, 20);
    for line in result.lines() {
        let trimmed = line.trim();
        if trimmed.starts_with("a:") || trimmed.starts_with("b:") {
            assert!(
                trimmed.ends_with(','),
                "Line should end with comma: {trimmed}"
            );
        }
    }
}

#[test]
fn test_split_annotations() {
    let (ann, body) = split_annotations(":from($s) :match($n) { 1: \"x\" }");
    assert_eq!(ann, ":from($s) :match($n)");
    assert_eq!(body, "{ 1: \"x\" }");
}

#[test]
fn test_multiple_tags_before_block() {
    let input = "card = :fem :inan { nom: \"a\", *acc: \"b\" };";
    let result = format_file(input, 100);
    assert_eq!(result, "card = :fem :inan { nom: \"a\", *acc: \"b\" };\n");
}

#[test]
fn format_empty_input_gives_empty_output() {
    assert_eq!(format_file("", 80), "");
    assert_eq!(format_file("\n\n\n", 80), "");
}

#[test]
fn format_breaks_after_equals_when_too_long() {
    let input = "greeting = \"Hello there, this is a long greeting\";";
    let result = format_file(input, 45);
    assert_eq!(result, "greeting =\n    \"Hello there, this is a long greeting\";\n");
}

#[test]
fn format_keeps_annotations_on_first_line() {
    let input = "p($x) = :from($x) \"some longer text here {$x}\";";
    let result = format_file(input, 36);
    assert_eq!(result, "p($x) = :from($x)\n    \"some longer text here {$x}\";\n");
}

#[test]
fn format_trailing_comma_removed_on_single_line() {
    let input = "c = { a: \"1\", b: \"2\", };";
    assert_eq!(format_file(input, 100), "c = { a: \"1\", b: \"2\" };\n");
}

#[test]
fn format_expands_nested_block() {
    let input = "x($n) = :from($n) { nom: :match($n) { 1: \"one card here\", *other: \"many cards here\" }, acc: \"b\" };";
    let result = format_file(input, 40);
    assert!(result.contains("    nom: :match($n) {\n"));
    assert!(result.contains("        1: \"one card here\",\n"));
    assert!(result.contains("    },\n"));
}

#[test]
fn format_keeps_line_when_no_break_fits() {
    let input = "greeting = \"Hello there, this is a long greeting\";";
    let result = format_file(input, 30);
    assert_eq!(result, "greeting = \"Hello there, this is a long greeting\";\n");
}

#[test]
fn format_definitions_blank_input_is_empty() {
    assert_eq!(format_definitions("  \n\t\n   \n", "  ", 80), "");
    assert_eq!(format_definitions("", "  ", 80), "");
}

#[test]
fn format_definitions_ends_with_one_newline() {
    let result = format_definitions("a = \"x\";\n\n\n\n", "", 80);
    assert_eq!(result, "a = \"x\";\n");
    let with_comment = format_definitions("// note\n\n", "  ", 80);
    assert_eq!(with_comment, "  // note\n");
}

#[test]
fn format_definitions_indents_every_line() {
    let input = "// head\nagent = :masc { nom: \"A\", acc: \"B\", gen: \"C\", dat: \"D\" };\n\ngreeting = \"Hello there, this is a long greeting\";";
    let result = format_definitions(input, "  ", 30);
    for line in result.lines() {
        assert!(line.is_empty() || line.starts_with("  "), "line {:?}", line);
    }
    assert!(result.ends_with('\n') && !result.ends_with("\n\n"));
}

#[test]
fn format_file_twice_on_doubled_comma() {
    let once = format_file("x = { a: \"1\",, };", 100);
    assert_eq!(once, "x = { a: \"1\", };\n");
    let twice = format_file(&once, 100);
    assert_eq!(twice, "x = { a: \"1\" };\n");
    let third = format_file(&twice, 100);
    assert_eq!(third, twice);
}
