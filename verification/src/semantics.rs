//! What evaluating templates and definitions gives: the meaning of
//! references, selectors, transforms, `:match` and `:from`, stated over the
//! models of the syntax tree, values and contexts.
use vstd::prelude::*;
use crate::text::{int_decimal, parse_i64_spec};
use crate::types::{PhraseModel, ValueModel, value_text, resolve_variant, lookup, last_dot};
use crate::ast::{
    TransformModel, TransformContextModel, ReferenceModel, SelectorModel, SegmentModel,
    MatchKeyModel, MatchBranchModel, VariantEntryModel, VariantEntryBodyModel, PhraseBodyModel,
    PhraseDefinitionModel,
};
use crate::errors::{EvalErrorModel, suggestions_spec};
use crate::context::{CtxModel, env_get, fresh_ctx, push_spec, max_nesting, default_max_depth};
use crate::plural::{form_name, cldr_form, normalized_lang};
use crate::transforms::{transform_lookup, transform_spec};
use crate::parser::validate::split_dots;

verus! {

// ---------------------------------------------------------------------------
// Registry lookup, parameters
// ---------------------------------------------------------------------------

/// The first definition named `name`.
pub open spec fn reg_get(defs: Seq<PhraseDefinitionModel>, name: Seq<char>) -> Option<PhraseDefinitionModel>
    decreases defs.len(),
{
    if defs.len() == 0 {
        None
    } else if defs[0].name == name {
        Some(defs[0])
    } else {
        reg_get(defs.drop_first(), name)
    }
}

/// Index of the first entry with key `k`.
pub open spec fn key_index<V>(env: Seq<(Seq<char>, V)>, k: Seq<char>) -> Option<int>
    decreases env.len(),
{
    if env.len() == 0 {
        None
    } else if env.last().0 == k && key_index(env.drop_last(), k) is None {
        Some(env.len() - 1)
    } else {
        key_index(env.drop_last(), k)
    }
}

/// A map insertion: the entry with key `k` gets value `v`, or a new entry is
/// added at the end.
pub open spec fn env_insert<V>(env: Seq<(Seq<char>, V)>, k: Seq<char>, v: V) -> Seq<(Seq<char>, V)> {
    match key_index(env, k) {
        Some(i) => env.update(i, (k, v)),
        None => env.push((k, v)),
    }
}

/// Parameter names bound to values in order (a later name replaces an
/// earlier equal one's value).
pub open spec fn bind_params(names: Seq<Seq<char>>, vals: Seq<ValueModel>) -> Seq<(Seq<char>, ValueModel)>
    decreases names.len(),
{
    if names.len() == 0 || vals.len() == 0 {
        seq![]
    } else {
        env_insert(
            bind_params(names.drop_last(), vals.drop_last()),
            names.last(),
            vals.last(),
        )
    }
}

/// The parameters of one `:from` variant: the `:from` parameter bound to the
/// variant phrase, then every other parameter of the definition that the
/// enclosing context has.
pub open spec fn variant_params(from_param: Seq<char>, phrase: PhraseModel, names: Seq<Seq<char>>, env: Seq<(Seq<char>, ValueModel)>) -> Seq<(Seq<char>, ValueModel)>
    decreases names.len(),
{
    if names.len() == 0 {
        seq![(from_param, ValueModel::Phrase(phrase))]
    } else {
        let prev = variant_params(from_param, phrase, names.drop_last(), env);
        let p = names.last();
        if p != from_param && env_get(env, p) is Some {
            env_insert(prev, p, env_get(env, p)->0)
        } else {
            prev
        }
    }
}

/// The CLDR plural category name of `n` in `lang`.
pub open spec fn plural_name(lang: Seq<char>, n: i64) -> Seq<char> {
    form_name(cldr_form(normalized_lang(lang), n))
}

// ---------------------------------------------------------------------------
// Sorting keys
// ---------------------------------------------------------------------------

/// Code-point (equivalently UTF-8 byte) lexicographic order.
pub open spec fn lex_lt(a: Seq<char>, b: Seq<char>) -> bool
    decreases a.len(),
{
    if a.len() == 0 {
        b.len() > 0
    } else if b.len() == 0 {
        false
    } else if a[0] != b[0] {
        (a[0] as u32) < (b[0] as u32)
    } else {
        lex_lt(a.drop_first(), b.drop_first())
    }
}

/// `x` inserted before the first element greater than it.
pub open spec fn insert_sorted(s: Seq<Seq<char>>, x: Seq<char>) -> Seq<Seq<char>>
    decreases s.len(),
{
    if s.len() == 0 {
        seq![x]
    } else if lex_lt(x, s[0]) {
        seq![x] + s
    } else {
        seq![s[0]] + insert_sorted(s.drop_first(), x)
    }
}

/// The strings in ascending order.
pub open spec fn sort_strings(s: Seq<Seq<char>>) -> Seq<Seq<char>>
    decreases s.len(),
{
    if s.len() == 0 {
        seq![]
    } else {
        insert_sorted(sort_strings(s.drop_last()), s.last())
    }
}

pub open spec fn variant_keys(es: Seq<(Seq<char>, Seq<char>)>) -> Seq<Seq<char>> {
    es.map_values(|e: (Seq<char>, Seq<char>)| e.0)
}

// ---------------------------------------------------------------------------
// Variant lookup and selectors
// ---------------------------------------------------------------------------

/// A variant of a phrase by key with fallback through shorter keys; a phrase
/// without variants gives its text; else a missing-variant error listing the
/// sorted keys and suggestions.
pub open spec fn variant_lookup_spec(p: PhraseModel, key: Seq<char>) -> Result<Seq<char>, EvalErrorModel> {
    match resolve_variant(p.variants, key) {
        Some(v) => Ok(v),
        None => if p.variants.len() == 0 {
            Ok(p.text)
        } else {
            let available = sort_strings(variant_keys(p.variants));
            Err(
                EvalErrorModel::MissingVariant {
                    phrase: p.text,
                    key,
                    available,
                    suggestions: suggestions_spec(key, available),
                },
            )
        },
    }
}

/// `prefix.candidate`, or the candidate alone after an empty prefix.
pub open spec fn join_key(prefix: Seq<char>, c: Seq<char>) -> Seq<char> {
    if prefix.len() == 0 {
        c
    } else {
        prefix + "."@ + c
    }
}

/// Every prefix combined with every candidate, prefixes outermost.
pub open spec fn extend_keys(prefixes: Seq<Seq<char>>, cands: Seq<Seq<char>>) -> Seq<Seq<char>>
    decreases prefixes.len(),
{
    if prefixes.len() == 0 {
        seq![]
    } else {
        extend_keys(prefixes.drop_last(), cands) + cands.map_values(
            |c: Seq<char>| join_key(prefixes.last(), c),
        )
    }
}

/// The cartesian product of candidate lists joined with `.`.
pub open spec fn compound_keys(parts: Seq<Seq<Seq<char>>>) -> Seq<Seq<char>>
    decreases parts.len(),
{
    if parts.len() == 0 {
        seq![seq![]]
    } else {
        extend_keys(compound_keys(parts.drop_last()), parts.last())
    }
}

/// The candidate keys of one selector: a name as it is; for a parameter, the
/// plural category of a number (or of a string that parses as one), all the
/// tags of a phrase (which must have one), or a string as it is.
pub open spec fn selector_candidates(s: SelectorModel, env: Seq<(Seq<char>, ValueModel)>, lang: Seq<char>) -> Result<Seq<Seq<char>>, EvalErrorModel> {
    match s {
        SelectorModel::Identifier(n) => Ok(seq![n]),
        SelectorModel::Default => Ok(seq![]),
        SelectorModel::Parameter(n) => match env_get(env, n) {
            None => Err(EvalErrorModel::UnknownParameter(n)),
            Some(v) => match v {
                ValueModel::Number(x) => Ok(seq![plural_name(lang, x)]),
                ValueModel::Float(_, t) => Ok(seq![plural_name(lang, t)]),
                ValueModel::Phrase(p) => if p.tags.len() == 0 {
                    Err(
                        EvalErrorModel::MissingTag {
                            transform: "selector"@,
                            expected: seq!["any"@],
                            phrase: p.text,
                        },
                    )
                } else {
                    Ok(p.tags)
                },
                ValueModel::Str(t) => match parse_i64_spec(t) {
                    Some(x) => Ok(seq![plural_name(lang, x)]),
                    None => Ok(seq![t]),
                },
            },
        },
    }
}

/// The candidates of all selectors, resolved left to right.
pub open spec fn all_candidates(sels: Seq<SelectorModel>, env: Seq<(Seq<char>, ValueModel)>, lang: Seq<char>) -> Result<Seq<Seq<Seq<char>>>, EvalErrorModel>
    decreases sels.len(),
{
    if sels.len() == 0 {
        Ok(seq![])
    } else {
        match all_candidates(sels.drop_last(), env, lang) {
            Err(e) => Err(e),
            Ok(prev) => match selector_candidates(sels.last(), env, lang) {
                Err(e) => Err(e),
                Ok(c) => Ok(prev.push(c)),
            },
        }
    }
}

pub open spec fn has_default_selector(sels: Seq<SelectorModel>) -> bool {
    exists|i: int| 0 <= i < sels.len() && sels[i] is Default
}

/// The first key whose lookup succeeds.
pub open spec fn first_found(p: PhraseModel, keys: Seq<Seq<char>>) -> Option<Seq<char>>
    decreases keys.len(),
{
    if keys.len() == 0 {
        None
    } else {
        match variant_lookup_spec(p, keys[0]) {
            Ok(t) => Some(t),
            Err(_) => first_found(p, keys.drop_first()),
        }
    }
}

pub open spec fn primary_key(keys: Seq<Seq<char>>) -> Seq<char> {
    if keys.len() > 0 {
        keys[0]
    } else {
        "?"@
    }
}

/// A phrase with the given text and tags and no variants.
pub open spec fn plain_phrase(text: Seq<char>, tags: Seq<Seq<char>>) -> ValueModel {
    ValueModel::Phrase(PhraseModel { text, variants: seq![], tags })
}

/// Selectors applied to a value: none keep it; `:*` gives a phrase's default
/// text; otherwise the compound keys are tried in order, and the first
/// (most specific) one reports the error where none is found.
pub open spec fn apply_selectors_spec(v: ValueModel, sels: Seq<SelectorModel>, env: Seq<(Seq<char>, ValueModel)>, lang: Seq<char>) -> Result<ValueModel, EvalErrorModel> {
    if sels.len() == 0 {
        Ok(v)
    } else if has_default_selector(sels) {
        match v {
            ValueModel::Phrase(p) => Ok(plain_phrase(p.text, p.tags)),
            _ => Ok(v),
        }
    } else {
        match all_candidates(sels, env, lang) {
            Err(e) => Err(e),
            Ok(parts) => {
                let keys = compound_keys(parts);
                match v {
                    ValueModel::Phrase(p) => match first_found(p, keys) {
                        Some(t) => Ok(plain_phrase(t, p.tags)),
                        None => match variant_lookup_spec(p, primary_key(keys)) {
                            Ok(t) => Ok(plain_phrase(t, p.tags)),
                            Err(e) => Err(e),
                        },
                    },
                    _ => Err(
                        EvalErrorModel::MissingVariant {
                            phrase: value_text(v),
                            key: primary_key(keys),
                            available: seq![],
                            suggestions: seq![],
                        },
                    ),
                }
            },
        }
    }
}

// ---------------------------------------------------------------------------
// Transforms
// ---------------------------------------------------------------------------

/// The value a transform's context gives.
pub open spec fn transform_context_spec(c: TransformContextModel, env: Seq<(Seq<char>, ValueModel)>) -> Result<Option<ValueModel>, EvalErrorModel> {
    match c {
        TransformContextModel::Absent => Ok(None),
        TransformContextModel::Static(s) => Ok(Some(ValueModel::Str(s))),
        TransformContextModel::Dynamic(d) => match env_get(env, d) {
            Some(v) => Ok(Some(v)),
            None => Err(EvalErrorModel::UnknownParameter(d)),
        },
        TransformContextModel::Both(s, d) => match env_get(env, d) {
            Some(v) => Ok(Some(ValueModel::Str(s + "."@ + value_text(v)))),
            None => Err(EvalErrorModel::UnknownParameter(d)),
        },
    }
}

/// Transforms applied right to left; each after the first gets the previous
/// result as a string.
pub open spec fn apply_transforms_spec(v: ValueModel, ts: Seq<TransformModel>, env: Seq<(Seq<char>, ValueModel)>, lang: Seq<char>) -> Result<Seq<char>, EvalErrorModel>
    decreases ts.len(),
{
    if ts.len() == 0 {
        Ok(value_text(v))
    } else {
        let t = ts.last();
        match transform_lookup(t.name, lang) {
            None => Err(EvalErrorModel::UnknownTransform(t.name)),
            Some(k) => match transform_context_spec(t.context, env) {
                Err(e) => Err(e),
                Ok(cv) => match transform_spec(k, v, cv, lang) {
                    Err(e) => Err(e),
                    Ok(s) => apply_transforms_spec(ValueModel::Str(s), ts.drop_last(), env, lang),
                },
            },
        }
    }
}

// ---------------------------------------------------------------------------
// :match
// ---------------------------------------------------------------------------

/// A number's match candidates: its decimal form, then its plural category
/// where that differs.
pub open spec fn number_candidates(n: i64, lang: Seq<char>) -> Seq<Seq<char>> {
    let exact = int_decimal(n as int);
    let cldr = plural_name(lang, n);
    if exact == cldr {
        seq![exact]
    } else {
        seq![exact, cldr]
    }
}

/// The match candidates of each `:match` parameter.
pub open spec fn match_candidates(params: Seq<Seq<char>>, env: Seq<(Seq<char>, ValueModel)>, lang: Seq<char>) -> Result<Seq<Seq<Seq<char>>>, EvalErrorModel>
    decreases params.len(),
{
    if params.len() == 0 {
        Ok(seq![])
    } else {
        match match_candidates(params.drop_last(), env, lang) {
            Err(e) => Err(e),
            Ok(prev) => match env_get(env, params.last()) {
                None => Err(EvalErrorModel::UnknownParameter(params.last())),
                Some(v) => Ok(
                    prev.push(
                        match v {
                            ValueModel::Number(n) => number_candidates(n, lang),
                            ValueModel::Phrase(p) => p.tags,
                            ValueModel::Str(s) => match parse_i64_spec(s) {
                                Some(n) => number_candidates(n, lang),
                                None => seq![s],
                            },
                            ValueModel::Float(_, t) => seq![plural_name(lang, t)],
                        },
                    ),
                ),
            },
        }
    }
}

/// The tests that `:match` applies to branch keys.
pub enum KeyTest {
    /// The key equals the candidate.
    Equal(Seq<char>),
    /// The key has more parts than there are dimensions and names tags the
    /// candidates all have (see `compound_tag_matches`).
    Compound(Seq<Seq<Seq<char>>>, nat),
    /// The key matches the candidate part by part, `*` dimensions matching
    /// anything.
    Partial(Seq<char>),
    /// Every one of the `n` dimensions of the key is marked `*`.
    AllDefault(nat),
}

/// A key with more parts than dimensions: the parts before the last
/// dimension must each be among that dimension's candidates, and all the
/// remaining parts among the last dimension's (a phrase with all those tags).
pub open spec fn compound_tag_matches(parts: Seq<Seq<char>>, resolved: Seq<Seq<Seq<char>>>, n: nat) -> bool {
    &&& parts.len() > n
    &&& resolved.len() >= n
    &&& n >= 1
    &&& forall|d: int| 0 <= d < n - 1 ==> #[trigger] resolved[d].contains(parts[d])
    &&& forall|j: int| n - 1 <= j < parts.len() ==> #[trigger] resolved[n - 1].contains(parts[j])
}

/// Whether a key matches a candidate part by part, a `*` dimension matching
/// anything.
pub open spec fn matches_with_defaults(k: MatchKeyModel, cand: Seq<char>) -> bool {
    let kp = split_dots(k.value);
    let cp = split_dots(cand);
    &&& kp.len() == cp.len()
    &&& forall|d: int|
        0 <= d < kp.len() ==> #[trigger] kp[d] == cp[d] || (d < k.default_dimensions.len()
            && k.default_dimensions[d])
}

pub open spec fn key_passes(k: MatchKeyModel, t: KeyTest) -> bool {
    match t {
        KeyTest::Equal(c) => k.value == c,
        KeyTest::Compound(resolved, n) => compound_tag_matches(split_dots(k.value), resolved, n),
        KeyTest::Partial(c) => matches_with_defaults(k, c),
        KeyTest::AllDefault(n) => k.default_dimensions.len() == n && forall|d: int|
            0 <= d < n ==> #[trigger] k.default_dimensions[d],
    }
}

pub open spec fn any_key(keys: Seq<MatchKeyModel>, t: KeyTest) -> bool {
    exists|j: int| 0 <= j < keys.len() && #[trigger] key_passes(keys[j], t)
}

/// The first branch from `i` with a key that passes the test.
pub open spec fn first_branch(bs: Seq<MatchBranchModel>, t: KeyTest, i: int) -> Option<int>
    decreases bs.len() - i,
{
    if i < 0 || i >= bs.len() {
        None
    } else if any_key(bs[i].keys, t) {
        Some(i)
    } else {
        first_branch(bs, t, i + 1)
    }
}

/// For the first candidate (in order) that some key equals, the first
/// branch with such a key.
pub open spec fn exact_branch(bs: Seq<MatchBranchModel>, cands: Seq<Seq<char>>) -> Option<int>
    decreases cands.len(),
{
    if cands.len() == 0 {
        None
    } else {
        match first_branch(bs, KeyTest::Equal(cands[0]), 0) {
            Some(b) => Some(b),
            None => exact_branch(bs, cands.drop_first()),
        }
    }
}

/// The same with matching that lets `*` dimensions match anything.
pub open spec fn partial_branch(bs: Seq<MatchBranchModel>, cands: Seq<Seq<char>>) -> Option<int>
    decreases cands.len(),
{
    if cands.len() == 0 {
        None
    } else {
        match first_branch(bs, KeyTest::Partial(cands[0]), 0) {
            Some(b) => Some(b),
            None => partial_branch(bs, cands.drop_first()),
        }
    }
}

/// The branch that a `:match` selects: an exact key, else a compound tag
/// key, else a key matching with `*` dimensions, else the all-default key;
/// an error where none is found.
pub open spec fn select_branch(bs: Seq<MatchBranchModel>, resolved: Seq<Seq<Seq<char>>>, n: nat) -> Result<int, EvalErrorModel> {
    let cands = compound_keys(resolved);
    match exact_branch(bs, cands) {
        Some(b) => Ok(b),
        None => match first_branch(bs, KeyTest::Compound(resolved, n), 0) {
            Some(b) => Ok(b),
            None => match partial_branch(bs, cands) {
                Some(b) => Ok(b),
                None => match first_branch(bs, KeyTest::AllDefault(n), 0) {
                    Some(b) => Ok(b),
                    None => Err(EvalErrorModel::MissingMatchDefault(resolved)),
                },
            },
        },
    }
}

// ---------------------------------------------------------------------------
// Variant entry bodies for :from
// ---------------------------------------------------------------------------

/// Index of the last entry that has key `k` (later entries replace earlier
/// ones).
pub open spec fn last_entry_with_key(es: Seq<VariantEntryModel>, k: Seq<char>) -> Option<int>
    decreases es.len(),
{
    if es.len() == 0 {
        None
    } else if es.last().keys.contains(k) {
        Some(es.len() - 1)
    } else {
        last_entry_with_key(es.drop_last(), k)
    }
}

/// Index of the entry for a key, with fallback through shorter keys.
pub open spec fn entry_for_key(es: Seq<VariantEntryModel>, k: Seq<char>) -> Option<int>
    decreases k.len(),
{
    match last_entry_with_key(es, k) {
        Some(i) => Some(i),
        None => match last_dot(k) {
            None => None,
            Some(d) => {
                proof {
                    crate::types::lemma_last_dot(k);
                }
                entry_for_key(es, k.take(d))
            },
        },
    }
}

/// Index of the last `*` entry.
pub open spec fn last_default_entry(es: Seq<VariantEntryModel>) -> Option<int>
    decreases es.len(),
{
    if es.len() == 0 {
        None
    } else if es.last().is_default {
        Some(es.len() - 1)
    } else {
        last_default_entry(es.drop_last())
    }
}

/// All keys of the entries, the keys of later entries replacing equal ones.
pub open spec fn entry_keys(es: Seq<VariantEntryModel>) -> Seq<Seq<char>>
    decreases es.len(),
{
    if es.len() == 0 {
        seq![]
    } else {
        distinct_append(entry_keys(es.drop_last()), es.last().keys)
    }
}

/// `ks` appended to `acc`, each unless already there.
pub open spec fn distinct_append(acc: Seq<Seq<char>>, ks: Seq<Seq<char>>) -> Seq<Seq<char>>
    decreases ks.len(),
{
    if ks.len() == 0 {
        acc
    } else {
        let a = distinct_append(acc, ks.drop_last());
        if a.contains(ks.last()) {
            a
        } else {
            a.push(ks.last())
        }
    }
}


// ---------------------------------------------------------------------------
// Variant blocks
// ---------------------------------------------------------------------------

/// `keys` each bound to `t` in the map `m`.
pub open spec fn insert_all(m: Seq<(Seq<char>, Seq<char>)>, keys: Seq<Seq<char>>, t: Seq<char>) -> Seq<(Seq<char>, Seq<char>)>
    decreases keys.len(),
{
    if keys.len() == 0 {
        m
    } else {
        env_insert(insert_all(m, keys.drop_last(), t), keys.last(), t)
    }
}

/// The variants of a variant block: each key of each entry bound to the
/// entry's text (later entries replacing earlier keys).
pub open spec fn variants_of(es: Seq<VariantEntryModel>, texts: Seq<Seq<char>>) -> Seq<(Seq<char>, Seq<char>)>
    decreases es.len(),
{
    if es.len() == 0 || texts.len() == 0 {
        seq![]
    } else {
        insert_all(variants_of(es.drop_last(), texts.drop_last()), es.last().keys, texts.last())
    }
}

/// Index of the first entry with a key equal to the string context.
pub open spec fn context_entry(es: Seq<VariantEntryModel>, sc: Option<Seq<char>>, i: int) -> Option<int>
    decreases es.len() - i,
{
    if i < 0 || i >= es.len() {
        None
    } else {
        match sc {
            None => None,
            Some(s) => if es[i].keys.contains(s) {
                Some(i)
            } else {
                context_entry(es, sc, i + 1)
            },
        }
    }
}

/// Index of the first `*` entry.
pub open spec fn first_default_entry(es: Seq<VariantEntryModel>, i: int) -> Option<int>
    decreases es.len() - i,
{
    if i < 0 || i >= es.len() {
        None
    } else if es[i].is_default {
        Some(i)
    } else {
        first_default_entry(es, i + 1)
    }
}

/// The default text of a variant block: the entry matching the string
/// context, else the first `*` entry, else the first entry.
pub open spec fn block_default_text(es: Seq<VariantEntryModel>, texts: Seq<Seq<char>>, sc: Option<Seq<char>>) -> Seq<char> {
    match context_entry(es, sc, 0) {
        Some(i) => texts[i],
        None => match first_default_entry(es, 0) {
            Some(i) => texts[i],
            None => if es.len() > 0 {
                texts[0]
            } else {
                seq![]
            },
        },
    }
}

// ---------------------------------------------------------------------------
// Evaluation
// ---------------------------------------------------------------------------

/// The arguments of a call plus one; 0 for other references.
pub open spec fn call_arity(r: ReferenceModel) -> int {
    match r {
        ReferenceModel::PhraseCall { args, .. } => args.len() as int + 1,
        _ => 0,
    }
}

/// A reference standing in the termination measure where none is evaluated.
pub open spec fn no_ref() -> ReferenceModel {
    ReferenceModel::NumberLiteral(0)
}

/// How many more contexts may be opened inside this one.
pub open spec fn nest_left(c: CtxModel) -> int {
    max_nesting() - c.nesting
}

/// How many more term references may be followed in this context.
pub open spec fn depth_left(c: CtxModel) -> int {
    c.max_depth - c.depth
}

/// A template (its segments) evaluated left to right: literals as they
/// are, each interpolation's reference resolved, its selectors applied,
/// then its transforms.
pub open spec fn eval_segs(reg: Seq<PhraseDefinitionModel>, segs: Seq<SegmentModel>, c: CtxModel, lang: Seq<char>) -> Result<Seq<char>, EvalErrorModel>
    decreases nest_left(c), depth_left(c), 3int, no_ref(), segs.len(),
{
    if segs.len() == 0 {
        Ok(seq![])
    } else {
        match eval_segs(reg, segs.drop_last(), c, lang) {
            Err(e) => Err(e),
            Ok(prefix) => match segs.last() {
                SegmentModel::Literal(t) => Ok(prefix + t),
                SegmentModel::Interpolation { transforms, reference, selectors } => match resolve_ref(
                    reg,
                    reference,
                    c,
                    lang,
                ) {
                    Err(e) => Err(e),
                    Ok(v) => match apply_selectors_spec(v, selectors, c.params, lang) {
                        Err(e) => Err(e),
                        Ok(sv) => match apply_transforms_spec(sv, transforms, c.params, lang) {
                            Err(e) => Err(e),
                            Ok(t) => Ok(prefix + t),
                        },
                    },
                },
            },
        }
    }
}

/// A reference resolved to a value: a parameter from the context; a term by
/// name, evaluated with the name pushed on the call stack; a literal; or a
/// phrase call, its arguments resolved and its definition evaluated in a
/// context of its own.
pub open spec fn resolve_ref(reg: Seq<PhraseDefinitionModel>, r: ReferenceModel, c: CtxModel, lang: Seq<char>) -> Result<ValueModel, EvalErrorModel>
    decreases nest_left(c), depth_left(c), 2int, r, call_arity(r),
{
    match r {
        ReferenceModel::Parameter(n) => match env_get(c.params, n) {
            Some(v) => Ok(v),
            None => Err(EvalErrorModel::UnknownParameter(n)),
        },
        ReferenceModel::Identifier(n) => match reg_get(reg, n) {
            None => Err(EvalErrorModel::PhraseNotFound(n)),
            Some(d) => if d.is_phrase {
                Err(EvalErrorModel::SelectorOnPhrase(n))
            } else {
                match push_spec(c, n) {
                    Err(e) => Err(e),
                    Ok(c2) => match eval_def(reg, d, c2, lang) {
                        Err(e) => Err(e),
                        Ok(p) => Ok(ValueModel::Phrase(p)),
                    },
                }
            },
        },
        ReferenceModel::NumberLiteral(x) => Ok(ValueModel::Number(x)),
        ReferenceModel::StringLiteral(t) => Ok(ValueModel::Str(t)),
        ReferenceModel::PhraseCall { name, args } => match reg_get(reg, name) {
            None => Err(EvalErrorModel::PhraseNotFound(name)),
            Some(d) => if !d.is_phrase {
                Err(EvalErrorModel::ArgumentsToTerm(name))
            } else if d.parameters.len() != args.len() {
                Err(
                    EvalErrorModel::ArgumentCount {
                        phrase: name,
                        expected: d.parameters.len(),
                        got: args.len(),
                    },
                )
            } else {
                match resolve_args(reg, r, args.len() as int, c, lang) {
                    Err(e) => Err(e),
                    Ok(vals) => if c.nesting >= max_nesting() {
                        Err(EvalErrorModel::MaxDepthExceeded)
                    } else {
                        let child = fresh_ctx(
                            bind_params(d.parameters, vals),
                            default_max_depth(),
                            c.string_context,
                            c.nesting + 1,
                        );
                        match push_spec(child, name) {
                            Err(e) => Err(e),
                            Ok(c2) => match eval_def(reg, d, c2, lang) {
                                Err(e) => Err(e),
                                Ok(p) => Ok(ValueModel::Phrase(p)),
                            },
                        }
                    },
                }
            },
        },
    }
}

/// The first `n` arguments of a call, resolved left to right.
pub open spec fn resolve_args(reg: Seq<PhraseDefinitionModel>, call: ReferenceModel, n: int, c: CtxModel, lang: Seq<char>) -> Result<Seq<ValueModel>, EvalErrorModel>
    decreases nest_left(c), depth_left(c), 2int, call, n,
{
    match call {
        ReferenceModel::PhraseCall { name, args } => if n <= 0 || n > args.len() {
            Ok(seq![])
        } else {
            match resolve_args(reg, call, n - 1, c, lang) {
                Err(e) => Err(e),
                Ok(prev) => match resolve_ref(reg, args[n - 1], c, lang) {
                    Err(e) => Err(e),
                    Ok(v) => Ok(prev.push(v)),
                },
            }
        },
        _ => Ok(seq![]),
    }
}

/// A `:match` block: the branch that the parameters' candidates select,
/// evaluated.
pub open spec fn eval_match(reg: Seq<PhraseDefinitionModel>, bs: Seq<MatchBranchModel>, params: Seq<Seq<char>>, c: CtxModel, lang: Seq<char>) -> Result<Seq<char>, EvalErrorModel>
    decreases nest_left(c), depth_left(c), 4int, no_ref(), 0int,
{
    match match_candidates(params, c.params, lang) {
        Err(e) => Err(e),
        Ok(resolved) => match select_branch(bs, resolved, params.len()) {
            Err(e) => Err(e),
            Ok(b) => eval_segs(reg, bs[b].template, c, lang),
        },
    }
}

/// The body of a variant entry: a template or a `:match` block.
pub open spec fn eval_entry_body(reg: Seq<PhraseDefinitionModel>, b: VariantEntryBodyModel, c: CtxModel, lang: Seq<char>) -> Result<Seq<char>, EvalErrorModel>
    decreases nest_left(c), depth_left(c), 5int, no_ref(), 0int,
{
    match b {
        VariantEntryBodyModel::Template(t) => eval_segs(reg, t, c, lang),
        VariantEntryBodyModel::Match { match_params, branches } => eval_match(
            reg,
            branches,
            match_params,
            c,
            lang,
        ),
    }
}

/// The texts of a variant block's entries, evaluated in order.
pub open spec fn entry_texts(reg: Seq<PhraseDefinitionModel>, es: Seq<VariantEntryModel>, c: CtxModel, lang: Seq<char>) -> Result<Seq<Seq<char>>, EvalErrorModel>
    decreases nest_left(c), depth_left(c), 8int, no_ref(), es.len(),
{
    if es.len() == 0 {
        Ok(seq![])
    } else {
        match entry_texts(reg, es.drop_last(), c, lang) {
            Err(e) => Err(e),
            Ok(prev) => match eval_entry_body(reg, es.last().body, c, lang) {
                Err(e) => Err(e),
                Ok(t) => Ok(prev.push(t)),
            },
        }
    }
}

/// The phrase that a definition evaluates to.
pub open spec fn eval_def(reg: Seq<PhraseDefinitionModel>, d: PhraseDefinitionModel, c: CtxModel, lang: Seq<char>) -> Result<PhraseModel, EvalErrorModel>
    decreases nest_left(c), depth_left(c), 12int, no_ref(), 0int,
{
    match d.from_param {
        Some(fp) => eval_from(reg, d, fp, c, lang),
        None => match d.body {
            PhraseBodyModel::Simple(t) => match eval_segs(reg, t, c, lang) {
                Err(e) => Err(e),
                Ok(text) => Ok(PhraseModel { text, variants: seq![], tags: d.tags }),
            },
            PhraseBodyModel::Variants(es) => match entry_texts(reg, es, c, lang) {
                Err(e) => Err(e),
                Ok(texts) => Ok(
                    PhraseModel {
                        text: block_default_text(es, texts, c.string_context),
                        variants: variants_of(es, texts),
                        tags: d.tags,
                    },
                ),
            },
            PhraseBodyModel::Match(bs) => match eval_match(reg, bs, d.match_params, c, lang) {
                Err(e) => Err(e),
                Ok(text) => Ok(PhraseModel { text, variants: seq![], tags: d.tags }),
            },
        },
    }
}

pub open spec fn from_not_found(fp: Seq<char>) -> EvalErrorModel {
    EvalErrorModel::PhraseNotFound("parameter '"@ + fp + "' not found for :from modifier"@)
}

pub open spec fn from_not_phrase(fp: Seq<char>) -> EvalErrorModel {
    EvalErrorModel::PhraseNotFound("parameter '"@ + fp + "' must be a Phrase for :from modifier"@)
}

/// The text of variant `k` of the source phrase.
pub open spec fn source_text(sp: PhraseModel, k: Seq<char>) -> Seq<char> {
    match lookup(sp.variants, k) {
        Some(t) => t,
        None => seq![],
    }
}

/// The context for one `:from` variant: the variant phrase (its text, the
/// source's tags and variants) bound to the `:from` parameter.
pub open spec fn variant_ctx(d: PhraseDefinitionModel, fp: Seq<char>, sp: PhraseModel, k: Seq<char>, c: CtxModel) -> CtxModel {
    fresh_ctx(
        variant_params(
            fp,
            PhraseModel { text: source_text(sp, k), variants: sp.variants, tags: sp.tags },
            d.parameters,
            c.params,
        ),
        default_max_depth(),
        c.string_context,
        c.nesting + 1,
    )
}

/// A definition with `:from($fp)`: the source phrase's tags are inherited
/// and, where it has variants, the body is evaluated once per variant key
/// (in sorted order) with the parameter bound to that variant.
pub open spec fn eval_from(reg: Seq<PhraseDefinitionModel>, d: PhraseDefinitionModel, fp: Seq<char>, c: CtxModel, lang: Seq<char>) -> Result<PhraseModel, EvalErrorModel>
    decreases nest_left(c), depth_left(c), 11int, no_ref(), 0int,
{
    match env_get(c.params, fp) {
        None => Err(from_not_found(fp)),
        Some(v) => match v {
            ValueModel::Phrase(sp) => match d.body {
                PhraseBodyModel::Simple(t) => match eval_segs(reg, t, c, lang) {
                    Err(e) => Err(e),
                    Ok(text) => if sp.variants.len() > 0 {
                        match from_simple_loop(
                            reg,
                            d,
                            fp,
                            sp,
                            t,
                            sort_strings(variant_keys(sp.variants)),
                            c,
                            lang,
                        ) {
                            Err(e) => Err(e),
                            Ok(vs) => Ok(PhraseModel { text, variants: vs, tags: sp.tags }),
                        }
                    } else {
                        Ok(PhraseModel { text, variants: seq![], tags: sp.tags })
                    },
                },
                PhraseBodyModel::Variants(es) => eval_from_variants(reg, d, fp, sp, es, c, lang),
                PhraseBodyModel::Match(bs) => eval_from_match(reg, d, fp, sp, bs, c, lang),
            },
            _ => Err(from_not_phrase(fp)),
        },
    }
}

/// The variants of a simple `:from` body, one per key.
pub open spec fn from_simple_loop(reg: Seq<PhraseDefinitionModel>, d: PhraseDefinitionModel, fp: Seq<char>, sp: PhraseModel, t: Seq<SegmentModel>, keys: Seq<Seq<char>>, c: CtxModel, lang: Seq<char>) -> Result<Seq<(Seq<char>, Seq<char>)>, EvalErrorModel>
    decreases nest_left(c), depth_left(c), 10int, no_ref(), keys.len(),
{
    if keys.len() == 0 {
        Ok(seq![])
    } else {
        match from_simple_loop(reg, d, fp, sp, t, keys.drop_last(), c, lang) {
            Err(e) => Err(e),
            Ok(prev) => if c.nesting >= max_nesting() {
                Err(EvalErrorModel::MaxDepthExceeded)
            } else {
                match eval_segs(reg, t, variant_ctx(d, fp, sp, keys.last(), c), lang) {
                    Err(e) => Err(e),
                    Ok(text) => Ok(env_insert(prev, keys.last(), text)),
                }
            },
        }
    }
}

/// The entry for a source variant key: by key (with fallback), else the
/// `*` entry.
pub open spec fn entry_for_variant(es: Seq<VariantEntryModel>, k: Seq<char>) -> Option<int> {
    match entry_for_key(es, k) {
        Some(i) => Some(i),
        None => last_default_entry(es),
    }
}

/// A `:from` definition with a variant block: the default text from the
/// `*` entry (else the first), and for each source variant key the body of
/// its entry evaluated with the parameter bound to that variant.
pub open spec fn eval_from_variants(reg: Seq<PhraseDefinitionModel>, d: PhraseDefinitionModel, fp: Seq<char>, sp: PhraseModel, es: Seq<VariantEntryModel>, c: CtxModel, lang: Seq<char>) -> Result<PhraseModel, EvalErrorModel>
    decreases nest_left(c), depth_left(c), 10int, no_ref(), 0int,
{
    let default_res = match last_default_entry(es) {
        Some(i) => eval_entry_body(reg, es[i].body, c, lang),
        None => if es.len() > 0 {
            eval_entry_body(reg, es[0].body, c, lang)
        } else {
            Ok(seq![])
        },
    };
    match default_res {
        Err(e) => Err(e),
        Ok(text) => if sp.variants.len() == 0 {
            Ok(PhraseModel { text, variants: seq![], tags: sp.tags })
        } else {
            match from_variants_loop(
                reg,
                d,
                fp,
                sp,
                es,
                sort_strings(variant_keys(sp.variants)),
                c,
                lang,
            ) {
                Err(e) => Err(e),
                Ok(vs) => Ok(PhraseModel { text, variants: vs, tags: sp.tags }),
            }
        },
    }
}

pub open spec fn from_variants_loop(reg: Seq<PhraseDefinitionModel>, d: PhraseDefinitionModel, fp: Seq<char>, sp: PhraseModel, es: Seq<VariantEntryModel>, keys: Seq<Seq<char>>, c: CtxModel, lang: Seq<char>) -> Result<Seq<(Seq<char>, Seq<char>)>, EvalErrorModel>
    decreases nest_left(c), depth_left(c), 9int, no_ref(), keys.len(),
{
    if keys.len() == 0 {
        Ok(seq![])
    } else {
        match from_variants_loop(reg, d, fp, sp, es, keys.drop_last(), c, lang) {
            Err(e) => Err(e),
            Ok(prev) => match entry_for_variant(es, keys.last()) {
                None => Err(
                    EvalErrorModel::MissingVariant {
                        phrase: ":from variant block in '"@ + d.name + "'"@,
                        key: keys.last(),
                        available: entry_keys(es),
                        suggestions: seq![],
                    },
                ),
                Some(i) => if c.nesting >= max_nesting() {
                    Err(EvalErrorModel::MaxDepthExceeded)
                } else {
                    match eval_entry_body(
                        reg,
                        es[i].body,
                        variant_ctx(d, fp, sp, keys.last(), c),
                        lang,
                    ) {
                        Err(e) => Err(e),
                        Ok(text) => Ok(env_insert(prev, keys.last(), text)),
                    }
                },
            },
        }
    }
}

/// A `:from` definition with a `:match` block: the match evaluated for the
/// default text and once per source variant key.
pub open spec fn eval_from_match(reg: Seq<PhraseDefinitionModel>, d: PhraseDefinitionModel, fp: Seq<char>, sp: PhraseModel, bs: Seq<MatchBranchModel>, c: CtxModel, lang: Seq<char>) -> Result<PhraseModel, EvalErrorModel>
    decreases nest_left(c), depth_left(c), 10int, no_ref(), 0int,
{
    match eval_match(reg, bs, d.match_params, c, lang) {
        Err(e) => Err(e),
        Ok(text) => if sp.variants.len() > 0 {
            match from_match_loop(reg, d, fp, sp, bs, sort_strings(variant_keys(sp.variants)), c, lang) {
                Err(e) => Err(e),
                Ok(vs) => Ok(PhraseModel { text, variants: vs, tags: sp.tags }),
            }
        } else {
            Ok(PhraseModel { text, variants: seq![], tags: sp.tags })
        },
    }
}

pub open spec fn from_match_loop(reg: Seq<PhraseDefinitionModel>, d: PhraseDefinitionModel, fp: Seq<char>, sp: PhraseModel, bs: Seq<MatchBranchModel>, keys: Seq<Seq<char>>, c: CtxModel, lang: Seq<char>) -> Result<Seq<(Seq<char>, Seq<char>)>, EvalErrorModel>
    decreases nest_left(c), depth_left(c), 9int, no_ref(), keys.len(),
{
    if keys.len() == 0 {
        Ok(seq![])
    } else {
        match from_match_loop(reg, d, fp, sp, bs, keys.drop_last(), c, lang) {
            Err(e) => Err(e),
            Ok(prev) => if c.nesting >= max_nesting() {
                Err(EvalErrorModel::MaxDepthExceeded)
            } else {
                match eval_match(
                    reg,
                    bs,
                    d.match_params,
                    variant_ctx(d, fp, sp, keys.last(), c),
                    lang,
                ) {
                    Err(e) => Err(e),
                    Ok(text) => Ok(env_insert(prev, keys.last(), text)),
                }
            },
        }
    }
}

} // verus!
