# rlf

A localization language with phrases, parameters, variants, selection, tags
and transforms, as a library whose behaviour is stated in contracts and
proved with Verus.

```text
card = :a { one: "card", other: "cards" };
draw($n) = "Draw {$n} {card:$n}.";
title = "{@cap @a card}";
```

## Layout

- `src/parser/` — `.rlf` files and templates: a grammar stated as spec
  functions over characters, and parsers proved to follow it; definition
  validation.
- `src/formatter.rs` — the source formatter.
- `src/semantics.rs` — what evaluation means: references, selectors,
  transforms, `:match`, `:from`, over the models of the syntax tree.
- `src/evaluator.rs`, `src/context.rs` — evaluation, proved to give what
  `semantics.rs` says.
- `src/transforms.rs`, `src/plural.rs`, `src/language_meta.rs` —
  language-specific transforms, CLDR plural categories, tag and key lists.
- `src/registry.rs`, `src/template_cache.rs`, `src/locale.rs` — phrase
  storage by name and id, per-language registries, evaluation entry points.
- `src/lint.rs` — static lint rules.
- `src/laws.rs` — properties that span functions, proved.
- `app/` — what stays outside the verified library: the process-wide
  locale, reading translation files, the lint entry point, floats, and
  copies of the library's types with `Display`, `Error` and serde traits.
