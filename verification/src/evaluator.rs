//! Evaluation of templates and phrase definitions; each function is proved
//! to compute what `semantics` states.
use vstd::prelude::*;
use crate::text::{chars_of, str_eq, to_string, push_str, copy_string, chars_eq, parse_i64};
use crate::types::{
    Phrase, PhraseModel, Value, ValueModel, VariantKey, Tag, value_text, entries_view, tags_view,
    resolve_variant_exec, copy_tags, copy_variants,
};
use crate::ast::{
    Selector, SelectorModel, Transform, TransformContext, MatchBranch, MatchKey, strings_view,
    selectors_view, transforms_view, branches_view, match_keys_view, Template, Segment, Reference,
    PhraseDefinition, PhraseBody, VariantEntry, VariantEntryBody, DefinitionKind, entries_model,
    reference_model,
};
use crate::errors::{EvalError, EvalErrorModel, compute_suggestions, lists_view};
use crate::context::{EvalContext, env_get, ctx_extends, CtxModel};
use crate::registry::PhraseRegistry;
use crate::semantics::{
    reg_get, key_index, env_insert, bind_params, variant_params, plural_name, lex_lt, insert_sorted, sort_strings, variant_keys, variant_lookup_spec, join_key, extend_keys, compound_keys, selector_candidates, all_candidates, has_default_selector, first_found, primary_key, plain_phrase, apply_selectors_spec, transform_context_spec, apply_transforms_spec, number_candidates, match_candidates, compound_tag_matches, matches_with_defaults, key_passes, any_key, first_branch, exact_branch, partial_branch, select_branch, last_entry_with_key, entry_for_key, last_default_entry, entry_keys, distinct_append, insert_all, variants_of, context_entry, first_default_entry, block_default_text, call_arity, no_ref, nest_left, depth_left, eval_segs, resolve_ref, resolve_args, eval_match, eval_entry_body, entry_texts, eval_def, from_not_found, from_not_phrase, source_text, variant_ctx, eval_from, from_simple_loop, entry_for_variant, eval_from_variants, from_variants_loop, eval_from_match, from_match_loop, KeyTest,
};
use crate::transforms::{TransformRegistry, outcome};
use crate::plural::plural_category;
use crate::parser::validate::{split_dot_parts, split_dots};

verus! {

// ---------------------------------------------------------------------------
// Sorting
// ---------------------------------------------------------------------------

fn lex_less(a: &[char], b: &[char]) -> (r: bool)
    ensures
        r == lex_lt(a@, b@),
{
    let mut i: usize = 0;
    assert(a@.skip(0) =~= a@);
    assert(b@.skip(0) =~= b@);
    while i < a.len() && i < b.len()
        invariant
            i <= a.len(),
            i <= b.len(),
            lex_lt(a@, b@) == lex_lt(a@.skip(i as int), b@.skip(i as int)),
        decreases a.len() - i,
    {
        let ghost sa = a@.skip(i as int);
        let ghost sb = b@.skip(i as int);
        assert(sa[0] == a@[i as int] && sb[0] == b@[i as int]);
        if a[i] != b[i] {
            return (a[i] as u32) < (b[i] as u32);
        }
        assert(sa.drop_first() =~= a@.skip(i as int + 1));
        assert(sb.drop_first() =~= b@.skip(i as int + 1));
        i = i + 1;
    }
    i == a.len() && i < b.len()
}

proof fn lemma_insert_sorted(s: Seq<Seq<char>>, x: Seq<char>, i: int)
    requires
        0 <= i <= s.len(),
        forall|j: int| 0 <= j < i ==> !lex_lt(x, #[trigger] s[j]),
        i == s.len() || lex_lt(x, s[i]),
    ensures
        insert_sorted(s, x) == s.take(i) + seq![x] + s.skip(i),
    decreases i,
{
    if s.len() == 0 {
        assert(s.take(i) + seq![x] + s.skip(i) =~= seq![x]);
    } else if i == 0 {
        assert(s.take(0) + seq![x] + s.skip(0) =~= seq![x] + s);
    } else {
        assert(!lex_lt(x, s[0]));
        let t = s.drop_first();
        assert forall|j: int| 0 <= j < i - 1 implies !lex_lt(x, #[trigger] t[j]) by {
            assert(t[j] == s[j + 1]);
        }
        if i < s.len() {
            assert(t[i - 1] == s[i]);
        }
        lemma_insert_sorted(t, x, i - 1);
        assert(seq![s[0]] + (t.take(i - 1) + seq![x] + t.skip(i - 1)) =~= s.take(i) + seq![x]
            + s.skip(i));
    }
}

fn insert_sorted_exec(r: &mut Vec<String>, x: String)
    ensures
        strings_view(final(r)@) == insert_sorted(strings_view(old(r)@), x@),
{
    let xc = chars_of(x.as_str());
    let ghost s = strings_view(r@);
    let mut i: usize = 0;
    let mut stop = false;
    while i < r.len() && !stop
        invariant
            i <= r.len(),
            s == strings_view(r@),
            xc@ == x@,
            forall|j: int| 0 <= j < i ==> !lex_lt(x@, #[trigger] s[j]),
            stop ==> i < r.len() && lex_lt(x@, s[i as int]),
        decreases r.len() - i, if stop { 0int } else { 1int },
    {
        let rc = chars_of(r[i].as_str());
        assert(s[i as int] == r@[i as int]@);
        if lex_less(xc.as_slice(), rc.as_slice()) {
            stop = true;
        } else {
            i = i + 1;
        }
    }
    proof {
        lemma_insert_sorted(s, x@, i as int);
    }
    let ghost xv = x@;
    r.insert(i, x);
    assert(strings_view(r@) =~= s.take(i as int) + seq![xv] + s.skip(i as int));
}

/// The strings in ascending order.
pub(crate) fn sorted(v: &Vec<String>) -> (r: Vec<String>)
    ensures
        strings_view(r@) == sort_strings(strings_view(v@)),
{
    let mut r: Vec<String> = Vec::new();
    let mut k: usize = 0;
    while k < v.len()
        invariant
            k <= v.len(),
            strings_view(r@) == sort_strings(strings_view(v@).take(k as int)),
        decreases v.len() - k,
    {
        assert(strings_view(v@).take(k as int + 1).drop_last() =~= strings_view(v@).take(k as int));
        insert_sorted_exec(&mut r, copy_string(&v[k]));
        k = k + 1;
    }
    assert(strings_view(v@).take(k as int) =~= strings_view(v@));
    r
}

// ---------------------------------------------------------------------------
// Variant lookup
// ---------------------------------------------------------------------------

/// The keys of a variant list, in order.
fn keys_of(vs: &Vec<(VariantKey, String)>) -> (r: Vec<String>)
    ensures
        strings_view(r@) == variant_keys(entries_view(vs@)),
{
    let mut r: Vec<String> = Vec::new();
    let mut i: usize = 0;
    while i < vs.len()
        invariant
            i <= vs.len(),
            strings_view(r@) == variant_keys(entries_view(vs@)).take(i as int),
        decreases vs.len() - i,
    {
        let ghost before = strings_view(r@);
        r.push(copy_string(&vs[i].0.0));
        assert(variant_keys(entries_view(vs@))[i as int] == vs@[i as int].0.0@);
        assert(strings_view(r@) =~= before.push(vs@[i as int].0.0@));
        assert(strings_view(r@) =~= variant_keys(entries_view(vs@)).take(i as int + 1));
        i = i + 1;
    }
    assert(variant_keys(entries_view(vs@)).take(i as int) =~= variant_keys(entries_view(vs@)));
    r
}

/// A variant of a phrase by key, with fallback through shorter keys.
pub fn variant_lookup(phrase: &Phrase, key: &str) -> (r: Result<String, EvalError>)
    ensures
        outcome(r) == variant_lookup_spec(phrase@, key@),
{
    let kc = chars_of(key);
    match resolve_variant_exec(&phrase.variants, kc.as_slice()) {
        Some(v) => Ok(copy_string(v)),
        None => {
            if phrase.variants.len() == 0 {
                return Ok(copy_string(&phrase.text));
            }
            let available = sorted(&keys_of(&phrase.variants));
            let suggestions = compute_suggestions(key, &available);
            Err(
                EvalError::MissingVariant {
                    phrase: copy_string(&phrase.text),
                    key: to_string(key),
                    available,
                    suggestions,
                },
            )
        },
    }
}

// ---------------------------------------------------------------------------
// Compound keys
// ---------------------------------------------------------------------------

fn join_key_exec(prefix: &String, c: &String) -> (r: String)
    ensures
        r@ == join_key(prefix@, c@),
{
    if chars_of(prefix.as_str()).len() == 0 {
        copy_string(c)
    } else {
        let mut r = copy_string(prefix);
        push_str(&mut r, ".");
        push_str(&mut r, c.as_str());
        r
    }
}

proof fn lemma_extend_step(ps: Seq<Seq<char>>, cands: Seq<Seq<char>>, k: int)
    requires
        0 <= k < ps.len(),
    ensures
        extend_keys(ps.take(k + 1), cands) == extend_keys(ps.take(k), cands) + cands.map_values(
            |c: Seq<char>| join_key(ps[k], c),
        ),
{
    assert(ps.take(k + 1).drop_last() =~= ps.take(k));
}

fn extend_keys_exec(prefixes: &Vec<String>, cands: &Vec<String>) -> (r: Vec<String>)
    ensures
        strings_view(r@) == extend_keys(strings_view(prefixes@), strings_view(cands@)),
{
    let ghost ps = strings_view(prefixes@);
    let ghost cs = strings_view(cands@);
    let mut next: Vec<String> = Vec::new();
    let mut p: usize = 0;
    while p < prefixes.len()
        invariant
            p <= prefixes.len(),
            ps == strings_view(prefixes@),
            cs == strings_view(cands@),
            strings_view(next@) == extend_keys(ps.take(p as int), cs),
        decreases prefixes.len() - p,
    {
        let ghost base = strings_view(next@);
        let mut c: usize = 0;
        while c < cands.len()
            invariant
                p < prefixes.len(),
                c <= cands.len(),
                ps == strings_view(prefixes@),
                cs == strings_view(cands@),
                strings_view(next@) == base + cs.take(c as int).map_values(
                    |x: Seq<char>| join_key(ps[p as int], x),
                ),
            decreases cands.len() - c,
        {
            let ghost before = strings_view(next@);
            let k = join_key_exec(&prefixes[p], &cands[c]);
            next.push(k);
            assert(cs.take(c as int + 1).map_values(|x: Seq<char>| join_key(ps[p as int], x))
                =~= cs.take(c as int).map_values(|x: Seq<char>| join_key(ps[p as int], x)).push(
                join_key(ps[p as int], cs[c as int]),
            ));
            assert(strings_view(next@) =~= before.push(join_key(ps[p as int], cs[c as int])));
            c = c + 1;
        }
        assert(cs.take(c as int) =~= cs);
        proof {
            lemma_extend_step(ps, cs, p as int);
        }
        p = p + 1;
    }
    assert(ps.take(p as int) =~= ps);
    next
}

/// The cartesian product of candidate lists joined with `.`.
fn compound_keys_exec(parts: &Vec<Vec<String>>) -> (r: Vec<String>)
    ensures
        strings_view(r@) == compound_keys(lists_view(parts@)),
{
    let ghost pv = lists_view(parts@);
    let mut result: Vec<String> = Vec::new();
    result.push(String::new());
    assert(strings_view(result@) =~= seq![seq![]]);
    assert(pv.take(0) =~= seq![]);
    let mut i: usize = 0;
    while i < parts.len()
        invariant
            i <= parts.len(),
            pv == lists_view(parts@),
            strings_view(result@) == compound_keys(pv.take(i as int)),
        decreases parts.len() - i,
    {
        assert(pv.take(i as int + 1).drop_last() =~= pv.take(i as int));
        assert(pv[i as int] == strings_view(parts@[i as int]@));
        result = extend_keys_exec(&result, &parts[i]);
        i = i + 1;
    }
    assert(pv.take(i as int) =~= pv);
    result
}

// ---------------------------------------------------------------------------
// Selectors
// ---------------------------------------------------------------------------

/// A `Result` of strings by its model.
pub open spec fn outcome_list(r: Result<Vec<String>, EvalError>) -> Result<Seq<Seq<char>>, EvalErrorModel> {
    match r {
        Ok(v) => Ok(strings_view(v@)),
        Err(e) => Err(e@),
    }
}

fn single(s: String) -> (r: Vec<String>)
    ensures
        strings_view(r@) == seq![s@],
{
    let mut v: Vec<String> = Vec::new();
    v.push(s);
    assert(strings_view(v@) =~= seq![s@]);
    v
}

fn tag_strings(ts: &Vec<Tag>) -> (r: Vec<String>)
    ensures
        strings_view(r@) == tags_view(ts@),
{
    let mut r: Vec<String> = Vec::new();
    let mut i: usize = 0;
    while i < ts.len()
        invariant
            i <= ts.len(),
            strings_view(r@) == tags_view(ts@).take(i as int),
        decreases ts.len() - i,
    {
        let ghost before = strings_view(r@);
        r.push(copy_string(&ts[i].0));
        assert(tags_view(ts@)[i as int] == ts@[i as int].0@);
        assert(strings_view(r@) =~= before.push(ts@[i as int].0@));
        assert(strings_view(r@) =~= tags_view(ts@).take(i as int + 1));
        i = i + 1;
    }
    assert(tags_view(ts@).take(i as int) =~= tags_view(ts@));
    r
}

fn plural_string(lang: &str, n: i64) -> (r: String)
    ensures
        r@ == plural_name(lang@, n),
{
    to_string(plural_category(lang, n))
}

fn selector_candidates_exec(sel: &Selector, ctx: &EvalContext, lang: &str) -> (r: Result<Vec<String>, EvalError>)
    ensures
        outcome_list(r) == selector_candidates(sel@, ctx@.params, lang@),
{
    match sel {
        Selector::Identifier(n) => Ok(single(copy_string(n))),
        Selector::Default => {
            let v: Vec<String> = Vec::new();
            assert(strings_view(v@) =~= seq![]);
            Ok(v)
        },
        Selector::Parameter(n) => match ctx.get_param(n.as_str()) {
            None => Err(EvalError::UnknownParameter { name: copy_string(n) }),
            Some(v) => match v {
                Value::Number(x) => Ok(single(plural_string(lang, *x))),
                Value::Float { truncated, .. } => Ok(single(plural_string(lang, *truncated))),
                Value::Phrase(p) => {
                    if p.tags.len() == 0 {
                        Err(
                            EvalError::MissingTag {
                                transform: to_string("selector"),
                                expected: single(to_string("any")),
                                phrase: copy_string(&p.text),
                            },
                        )
                    } else {
                        Ok(tag_strings(&p.tags))
                    }
                },
                Value::String(t) => match parse_i64(chars_of(t.as_str()).as_slice()) {
                    Some(x) => Ok(single(plural_string(lang, x))),
                    None => Ok(single(copy_string(t))),
                },
            },
        },
    }
}

fn all_candidates_exec(sels: &Vec<Selector>, ctx: &EvalContext, lang: &str) -> (r: Result<Vec<Vec<String>>, EvalError>)
    ensures
        match r {
            Ok(v) => all_candidates(selectors_view(sels@), ctx@.params, lang@) == Ok::<
                Seq<Seq<Seq<char>>>,
                EvalErrorModel,
            >(lists_view(v@)),
            Err(e) => all_candidates(selectors_view(sels@), ctx@.params, lang@) == Err::<
                Seq<Seq<Seq<char>>>,
                EvalErrorModel,
            >(e@),
        },
{
    let ghost sv = selectors_view(sels@);
    let mut parts: Vec<Vec<String>> = Vec::new();
    let mut i: usize = 0;
    assert(lists_view(parts@) =~= seq![]);
    while i < sels.len()
        invariant
            i <= sels.len(),
            sv == selectors_view(sels@),
            all_candidates(sv.take(i as int), ctx@.params, lang@) == Ok::<
                Seq<Seq<Seq<char>>>,
                EvalErrorModel,
            >(lists_view(parts@)),
        decreases sels.len() - i,
    {
        assert(sv.take(i as int + 1).drop_last() =~= sv.take(i as int));
        assert(sv[i as int] == sels@[i as int]@);
        match selector_candidates_exec(&sels[i], ctx, lang) {
            Err(e) => {
                proof {
                    lemma_all_candidates_err(sv, ctx@.params, lang@, i as int + 1);
                }
                return Err(e);
            },
            Ok(c) => {
                let ghost before = lists_view(parts@);
                let ghost cv = strings_view(c@);
                parts.push(c);
                assert(lists_view(parts@) =~= before.push(cv));
            },
        }
        i = i + 1;
    }
    assert(sv.take(i as int) =~= sv);
    Ok(parts)
}

proof fn lemma_all_candidates_err(sv: Seq<SelectorModel>, env: Seq<(Seq<char>, ValueModel)>, lang: Seq<char>, k: int)
    requires
        0 < k <= sv.len(),
        all_candidates(sv.take(k), env, lang) is Err,
    ensures
        all_candidates(sv, env, lang) == all_candidates(sv.take(k), env, lang),
    decreases sv.len() - k,
{
    if k < sv.len() {
        assert(sv.take(k + 1).drop_last() =~= sv.take(k));
        lemma_all_candidates_err(sv, env, lang, k + 1);
    } else {
        assert(sv.take(k) =~= sv);
    }
}

/// A `Result` of a value by its model.
pub open spec fn outcome_value(r: Result<Value, EvalError>) -> Result<ValueModel, EvalErrorModel> {
    match r {
        Ok(v) => Ok(v@),
        Err(e) => Err(e@),
    }
}

fn plain_phrase_exec(text: String, tags: &Vec<Tag>) -> (r: Value)
    ensures
        r@ == plain_phrase(text@, tags_view(tags@)),
{
    let p = Phrase { text, variants: Vec::new(), tags: copy_tags(tags) };
    assert(p@.variants =~= seq![]);
    Value::Phrase(p)
}

fn has_default(sels: &Vec<Selector>) -> (r: bool)
    ensures
        r == has_default_selector(selectors_view(sels@)),
{
    let mut i: usize = 0;
    while i < sels.len()
        invariant
            i <= sels.len(),
            forall|j: int| 0 <= j < i ==> !(sels@[j]@ is Default),
        decreases sels.len() - i,
    {
        if matches!(sels[i], Selector::Default) {
            assert(selectors_view(sels@)[i as int] is Default);
            return true;
        }
        i = i + 1;
    }
    proof {
        if has_default_selector(selectors_view(sels@)) {
            let j = choose|j: int|
                0 <= j < selectors_view(sels@).len() && selectors_view(sels@)[j] is Default;
            assert(sels@[j]@ is Default);
        }
    }
    false
}

/// Selectors applied to a value.
fn apply_selectors(value: &Value, sels: &Vec<Selector>, ctx: &EvalContext, lang: &str) -> (r: Result<Value, EvalError>)
    ensures
        outcome_value(r) == apply_selectors_spec(value@, selectors_view(sels@), ctx@.params, lang@),
{
    if sels.len() == 0 {
        return Ok(value.duplicate());
    }
    if has_default(sels) {
        return match value {
            Value::Phrase(p) => Ok(plain_phrase_exec(copy_string(&p.text), &p.tags)),
            _ => Ok(value.duplicate()),
        };
    }
    let parts = match all_candidates_exec(sels, ctx, lang) {
        Ok(p) => p,
        Err(e) => return Err(e),
    };
    let keys = compound_keys_exec(&parts);
    let ghost kv = strings_view(keys@);
    match value {
        Value::Phrase(p) => {
            let mut i: usize = 0;
            assert(kv.skip(0) =~= kv);
            while i < keys.len()
                invariant
                    i <= keys.len(),
                    kv == strings_view(keys@),
                    kv == compound_keys(lists_view(parts@)),
                    all_candidates(selectors_view(sels@), ctx@.params, lang@) == Ok::<
                        Seq<Seq<Seq<char>>>,
                        EvalErrorModel,
                    >(lists_view(parts@)),
                    sels@.len() > 0,
                    !has_default_selector(selectors_view(sels@)),
                    value@ == ValueModel::Phrase(p@),
                    first_found(p@, kv) == first_found(p@, kv.skip(i as int)),
                decreases keys.len() - i,
            {
                assert(kv.skip(i as int)[0] == keys@[i as int]@);
                match variant_lookup(p, keys[i].as_str()) {
                    Ok(t) => {
                        assert(first_found(p@, kv.skip(i as int)) == Some(t@));
                        return Ok(plain_phrase_exec(t, &p.tags));
                    },
                    Err(_) => {},
                }
                assert(kv.skip(i as int).drop_first() =~= kv.skip(i as int + 1));
                i = i + 1;
            }
            let primary = if keys.len() > 0 {
                copy_string(&keys[0])
            } else {
                to_string("?")
            };
            match variant_lookup(p, primary.as_str()) {
                Ok(t) => Ok(plain_phrase_exec(t, &p.tags)),
                Err(e) => Err(e),
            }
        },
        _ => {
            let primary = if keys.len() > 0 {
                copy_string(&keys[0])
            } else {
                to_string("?")
            };
            let available: Vec<String> = Vec::new();
            let suggestions: Vec<String> = Vec::new();
            assert(strings_view(available@) =~= seq![]);
            assert(strings_view(suggestions@) =~= seq![]);
            Err(
                EvalError::MissingVariant {
                    phrase: value.display(),
                    key: primary,
                    available,
                    suggestions,
                },
            )
        },
    }
}


// ---------------------------------------------------------------------------
// Transforms
// ---------------------------------------------------------------------------

pub open spec fn outcome_opt_value(r: Result<Option<Value>, EvalError>) -> Result<Option<ValueModel>, EvalErrorModel> {
    match r {
        Ok(Some(v)) => Ok(Some(v@)),
        Ok(None) => Ok(None),
        Err(e) => Err(e@),
    }
}

fn transform_context(c: &TransformContext, ctx: &EvalContext) -> (r: Result<Option<Value>, EvalError>)
    ensures
        outcome_opt_value(r) == transform_context_spec(c@, ctx@.params),
{
    match c {
        TransformContext::Absent => Ok(None),
        TransformContext::Static(n) => Ok(Some(Value::String(copy_string(n)))),
        TransformContext::Dynamic(d) => match ctx.get_param(d.as_str()) {
            Some(v) => Ok(Some(v.duplicate())),
            None => Err(EvalError::UnknownParameter { name: copy_string(d) }),
        },
        TransformContext::Both(st, d) => match ctx.get_param(d.as_str()) {
            Some(v) => {
                let mut t = copy_string(st);
                push_str(&mut t, ".");
                push_str(&mut t, v.display().as_str());
                Ok(Some(Value::String(t)))
            },
            None => Err(EvalError::UnknownParameter { name: copy_string(d) }),
        },
    }
}

fn opt_ref(v: &Option<Value>) -> (r: Option<&Value>)
    ensures
        crate::transforms::opt_view(r) == match v {
            Some(x) => Some(x@),
            None => None::<ValueModel>,
        },
{
    match v {
        Some(x) => Some(x),
        None => None,
    }
}

/// Transforms applied right to left.
fn apply_transforms(initial: &Value, ts: &Vec<Transform>, tr: &TransformRegistry, ctx: &EvalContext, lang: &str) -> (r: Result<String, EvalError>)
    ensures
        outcome(r) == apply_transforms_spec(initial@, transforms_view(ts@), ctx@.params, lang@),
{
    let ghost tv = transforms_view(ts@);
    let mut current = initial.duplicate();
    let mut i = ts.len();
    assert(tv.take(i as int) =~= tv);
    while i > 0
        invariant
            i <= ts.len(),
            tv == transforms_view(ts@),
            apply_transforms_spec(initial@, tv, ctx@.params, lang@) == apply_transforms_spec(
                current@,
                tv.take(i as int),
                ctx@.params,
                lang@,
            ),
        decreases i,
    {
        let t = &ts[i - 1];
        assert(tv.take(i as int).last() == t@);
        assert(tv.take(i as int).drop_last() =~= tv.take(i as int - 1));
        let kind = match tr.get(t.name.as_str(), lang) {
            Some(k) => k,
            None => return Err(EvalError::UnknownTransform { name: copy_string(&t.name) }),
        };
        let cv = match transform_context(&t.context, ctx) {
            Ok(cv) => cv,
            Err(e) => return Err(e),
        };
        let res = match kind.execute(&current, opt_ref(&cv), lang) {
            Ok(x) => x,
            Err(e) => return Err(e),
        };
        current = Value::String(res);
        i = i - 1;
    }
    Ok(current.display())
}

// ---------------------------------------------------------------------------
// :match
// ---------------------------------------------------------------------------

fn number_candidates_exec(n: i64, lang: &str) -> (r: Vec<String>)
    ensures
        strings_view(r@) == number_candidates(n, lang@),
{
    let exact = crate::text::i64_to_decimal(n);
    let cldr = plural_string(lang, n);
    if str_eq(exact.as_str(), cldr.as_str()) {
        single(exact)
    } else {
        let mut v: Vec<String> = Vec::new();
        v.push(exact);
        v.push(cldr);
        assert(strings_view(v@) =~= number_candidates(n, lang@));
        v
    }
}

fn match_candidates_exec(params: &Vec<String>, ctx: &EvalContext, lang: &str) -> (r: Result<Vec<Vec<String>>, EvalError>)
    ensures
        match r {
            Ok(v) => match_candidates(strings_view(params@), ctx@.params, lang@) == Ok::<
                Seq<Seq<Seq<char>>>,
                EvalErrorModel,
            >(lists_view(v@)),
            Err(e) => match_candidates(strings_view(params@), ctx@.params, lang@) == Err::<
                Seq<Seq<Seq<char>>>,
                EvalErrorModel,
            >(e@),
        },
{
    let ghost pv = strings_view(params@);
    let mut out: Vec<Vec<String>> = Vec::new();
    assert(lists_view(out@) =~= seq![]);
    let mut i: usize = 0;
    while i < params.len()
        invariant
            i <= params.len(),
            pv == strings_view(params@),
            match_candidates(pv.take(i as int), ctx@.params, lang@) == Ok::<
                Seq<Seq<Seq<char>>>,
                EvalErrorModel,
            >(lists_view(out@)),
        decreases params.len() - i,
    {
        assert(pv.take(i as int + 1).drop_last() =~= pv.take(i as int));
        assert(pv[i as int] == params@[i as int]@);
        let c = match ctx.get_param(params[i].as_str()) {
            None => {
                proof {
                    lemma_match_candidates_err(pv, ctx@.params, lang@, i as int + 1);
                }
                return Err(EvalError::UnknownParameter { name: copy_string(&params[i]) });
            },
            Some(v) => match v {
                Value::Number(n) => number_candidates_exec(*n, lang),
                Value::Phrase(p) => tag_strings(&p.tags),
                Value::String(t) => match parse_i64(chars_of(t.as_str()).as_slice()) {
                    Some(n) => number_candidates_exec(n, lang),
                    None => single(copy_string(t)),
                },
                Value::Float { truncated, .. } => single(plural_string(lang, *truncated)),
            },
        };
        let ghost before = lists_view(out@);
        let ghost cv = strings_view(c@);
        out.push(c);
        assert(lists_view(out@) =~= before.push(cv));
        i = i + 1;
    }
    assert(pv.take(i as int) =~= pv);
    Ok(out)
}

proof fn lemma_match_candidates_err(pv: Seq<Seq<char>>, env: Seq<(Seq<char>, ValueModel)>, lang: Seq<char>, k: int)
    requires
        0 < k <= pv.len(),
        match_candidates(pv.take(k), env, lang) is Err,
    ensures
        match_candidates(pv, env, lang) == match_candidates(pv.take(k), env, lang),
    decreases pv.len() - k,
{
    if k < pv.len() {
        assert(pv.take(k + 1).drop_last() =~= pv.take(k));
        lemma_match_candidates_err(pv, env, lang, k + 1);
    } else {
        assert(pv.take(k) =~= pv);
    }
}

pub open spec fn test_of(kind: u8, cand: Seq<char>, resolved: Seq<Seq<Seq<char>>>, n: nat) -> KeyTest {
    if kind == 0 {
        KeyTest::Equal(cand)
    } else if kind == 1 {
        KeyTest::Compound(resolved, n)
    } else if kind == 2 {
        KeyTest::Partial(cand)
    } else {
        KeyTest::AllDefault(n)
    }
}

pub(crate) fn list_contains(list: &Vec<String>, x: &Vec<char>) -> (r: bool)
    ensures
        r == strings_view(list@).contains(x@),
{
    let mut i: usize = 0;
    while i < list.len()
        invariant
            i <= list.len(),
            forall|j: int| 0 <= j < i ==> list@[j]@ != x@,
        decreases list.len() - i,
    {
        let c = chars_of(list[i].as_str());
        if chars_eq(c.as_slice(), x.as_slice()) {
            assert(strings_view(list@)[i as int] == x@);
            return true;
        }
        i = i + 1;
    }
    proof {
        if strings_view(list@).contains(x@) {
            let j = choose|j: int| 0 <= j < strings_view(list@).len() && strings_view(list@)[j] == x@;
            assert(list@[j]@ == x@);
        }
    }
    false
}

fn compound_exec(k: &MatchKey, resolved: &Vec<Vec<String>>, n: usize) -> (r: bool)
    ensures
        r == key_passes(k@, KeyTest::Compound(lists_view(resolved@), n as nat)),
{
    let parts = split_dot_parts(&chars_of(k.value.as_str()));
    let ghost pv = parts.deep_view();
    let ghost rv = lists_view(resolved@);
    if parts.len() <= n || resolved.len() < n || n == 0 {
        return false;
    }
    let mut d: usize = 0;
    while d < n - 1
        invariant
            n >= 1,
            d <= n - 1,
            parts.len() > n,
            resolved.len() >= n,
            pv == parts.deep_view(),
            pv == split_dots(k@.value),
            rv == lists_view(resolved@),
            forall|e: int| 0 <= e < d ==> #[trigger] rv[e].contains(pv[e]),
        decreases n - 1 - d,
    {
        assert(rv[d as int] == strings_view(resolved@[d as int]@));
        assert(pv[d as int] == parts@[d as int]@);
        if !list_contains(&resolved[d], &parts[d]) {
            return false;
        }
        d = d + 1;
    }
    let mut j: usize = n - 1;
    while j < parts.len()
        invariant
            n >= 1,
            n - 1 <= j <= parts.len(),
            parts.len() > n,
            resolved.len() >= n,
            pv == parts.deep_view(),
            pv == split_dots(k@.value),
            rv == lists_view(resolved@),
            forall|e: int| 0 <= e < n - 1 ==> #[trigger] rv[e].contains(pv[e]),
            forall|e: int| n - 1 <= e < j ==> #[trigger] rv[n - 1].contains(pv[e]),
        decreases parts.len() - j,
    {
        assert(rv[n - 1] == strings_view(resolved@[n - 1]@));
        assert(pv[j as int] == parts@[j as int]@);
        if !list_contains(&resolved[n - 1], &parts[j]) {
            return false;
        }
        j = j + 1;
    }
    true
}

fn partial_exec(k: &MatchKey, cand: &Vec<char>) -> (r: bool)
    ensures
        r == key_passes(k@, KeyTest::Partial(cand@)),
{
    let kp = split_dot_parts(&chars_of(k.value.as_str()));
    let cp = split_dot_parts(cand);
    let ghost kv = kp.deep_view();
    let ghost cv = cp.deep_view();
    if kp.len() != cp.len() {
        return false;
    }
    let mut d: usize = 0;
    while d < kp.len()
        invariant
            d <= kp.len(),
            kp.len() == cp.len(),
            kv == kp.deep_view(),
            cv == cp.deep_view(),
            kv == split_dots(k@.value),
            cv == split_dots(cand@),
            forall|e: int|
                0 <= e < d ==> #[trigger] kv[e] == cv[e] || (e < k@.default_dimensions.len()
                    && k@.default_dimensions[e]),
        decreases kp.len() - d,
    {
        assert(kv[d as int] == kp@[d as int]@);
        assert(cv[d as int] == cp@[d as int]@);
        let same = chars_eq(kp[d].as_slice(), cp[d].as_slice());
        let dflt = d < k.default_dimensions.len() && k.default_dimensions[d];
        if !same && !dflt {
            return false;
        }
        d = d + 1;
    }
    true
}

fn key_passes_exec(k: &MatchKey, kind: u8, cand: &Vec<char>, resolved: &Vec<Vec<String>>, n: usize) -> (r: bool)
    ensures
        r == key_passes(k@, test_of(kind, cand@, lists_view(resolved@), n as nat)),
{
    if kind == 0 {
        let kc = chars_of(k.value.as_str());
        chars_eq(kc.as_slice(), cand.as_slice())
    } else if kind == 1 {
        compound_exec(k, resolved, n)
    } else if kind == 2 {
        partial_exec(k, cand)
    } else {
        if k.default_dimensions.len() != n {
            return false;
        }
        let mut d: usize = 0;
        while d < n
            invariant
                d <= n,
                kind != 0 && kind != 1 && kind != 2,
                k.default_dimensions.len() == n,
                forall|e: int| 0 <= e < d ==> #[trigger] k@.default_dimensions[e],
            decreases n - d,
        {
            if !k.default_dimensions[d] {
                assert(!k@.default_dimensions[d as int]);
                return false;
            }
            d = d + 1;
        }
        true
    }
}

fn first_branch_exec(bs: &Vec<MatchBranch>, kind: u8, cand: &Vec<char>, resolved: &Vec<Vec<String>>, n: usize) -> (r: Option<usize>)
    ensures
        match r {
            Some(b) => first_branch(branches_view(bs@), test_of(kind, cand@, lists_view(resolved@), n as nat), 0)
                == Some(b as int) && b < bs.len(),
            None => first_branch(branches_view(bs@), test_of(kind, cand@, lists_view(resolved@), n as nat), 0) is None,
        },
{
    let ghost t = test_of(kind, cand@, lists_view(resolved@), n as nat);
    let ghost bv = branches_view(bs@);
    let mut b: usize = 0;
    while b < bs.len()
        invariant
            b <= bs.len(),
            bv == branches_view(bs@),
            t == test_of(kind, cand@, lists_view(resolved@), n as nat),
            first_branch(bv, t, 0) == first_branch(bv, t, b as int),
        decreases bs.len() - b,
    {
        let keys = &bs[b].keys;
        assert(bv[b as int].keys == match_keys_view(keys@));
        let mut j: usize = 0;
        let mut found = false;
        while j < keys.len() && !found
            invariant
                b < bs.len(),
                keys == &bs@[b as int].keys,
                j <= keys.len(),
                t == test_of(kind, cand@, lists_view(resolved@), n as nat),
                found ==> any_key(match_keys_view(keys@), t),
                !found ==> forall|e: int| 0 <= e < j ==> !key_passes(#[trigger] match_keys_view(keys@)[e], t),
            decreases keys.len() - j, if found { 0int } else { 1int },
        {
            assert(match_keys_view(keys@)[j as int] == keys@[j as int]@);
            if key_passes_exec(&keys[j], kind, cand, resolved, n) {
                found = true;
            } else {
                j = j + 1;
            }
        }
        if found {
            return Some(b);
        }
        b = b + 1;
    }
    None
}

fn candidate_branch(bs: &Vec<MatchBranch>, kind: u8, cands: &Vec<String>, resolved: &Vec<Vec<String>>, n: usize) -> (r: Option<usize>)
    requires
        kind == 0 || kind == 2,
    ensures
        kind == 0 ==> match r {
            Some(b) => exact_branch(branches_view(bs@), strings_view(cands@)) == Some(b as int) && b < bs.len(),
            None => exact_branch(branches_view(bs@), strings_view(cands@)) is None,
        },
        kind == 2 ==> match r {
            Some(b) => partial_branch(branches_view(bs@), strings_view(cands@)) == Some(b as int) && b < bs.len(),
            None => partial_branch(branches_view(bs@), strings_view(cands@)) is None,
        },
{
    let ghost cv = strings_view(cands@);
    let ghost bv = branches_view(bs@);
    let mut i: usize = 0;
    assert(cv.skip(0) =~= cv);
    while i < cands.len()
        invariant
            kind == 0 || kind == 2,
            i <= cands.len(),
            cv == strings_view(cands@),
            bv == branches_view(bs@),
            kind == 0 ==> exact_branch(bv, cv) == exact_branch(bv, cv.skip(i as int)),
            kind == 2 ==> partial_branch(bv, cv) == partial_branch(bv, cv.skip(i as int)),
        decreases cands.len() - i,
    {
        assert(cv.skip(i as int)[0] == cands@[i as int]@);
        let c = chars_of(cands[i].as_str());
        match first_branch_exec(bs, kind, &c, resolved, n) {
            Some(b) => {
                return Some(b);
            },
            None => {},
        }
        assert(cv.skip(i as int).drop_first() =~= cv.skip(i as int + 1));
        i = i + 1;
    }
    None
}

/// The branch that a `:match` selects.
fn select_branch_exec(bs: &Vec<MatchBranch>, resolved: &Vec<Vec<String>>, n: usize) -> (r: Result<usize, EvalError>)
    ensures
        match r {
            Ok(b) => select_branch(branches_view(bs@), lists_view(resolved@), n as nat) == Ok::<int, EvalErrorModel>(b as int)
                && b < bs.len(),
            Err(e) => select_branch(branches_view(bs@), lists_view(resolved@), n as nat) == Err::<int, EvalErrorModel>(e@),
        },
{
    let cands = compound_keys_exec(resolved);
    let none: Vec<char> = Vec::new();
    match candidate_branch(bs, 0, &cands, resolved, n) {
        Some(b) => return Ok(b),
        None => {},
    }
    match first_branch_exec(bs, 1, &none, resolved, n) {
        Some(b) => return Ok(b),
        None => {},
    }
    match candidate_branch(bs, 2, &cands, resolved, n) {
        Some(b) => return Ok(b),
        None => {},
    }
    match first_branch_exec(bs, 3, &none, resolved, n) {
        Some(b) => return Ok(b),
        None => {},
    }
    let mut keys: Vec<Vec<String>> = Vec::new();
    let mut i: usize = 0;
    while i < resolved.len()
        invariant
            i <= resolved.len(),
            lists_view(keys@) == lists_view(resolved@).take(i as int),
        decreases resolved.len() - i,
    {
        let mut row: Vec<String> = Vec::new();
        let mut j: usize = 0;
        while j < resolved[i].len()
            invariant
                i < resolved.len(),
                j <= resolved@[i as int].len(),
                strings_view(row@) == strings_view(resolved@[i as int]@).take(j as int),
            decreases resolved@[i as int].len() - j,
        {
            let ghost before = strings_view(row@);
            row.push(copy_string(&resolved[i][j]));
            assert(strings_view(row@) =~= before.push(resolved@[i as int]@[j as int]@));
            assert(strings_view(row@) =~= strings_view(resolved@[i as int]@).take(j as int + 1));
            j = j + 1;
        }
        assert(strings_view(resolved@[i as int]@).take(j as int) =~= strings_view(resolved@[i as int]@));
        let ghost before = lists_view(keys@);
        let ghost rv = strings_view(row@);
        keys.push(row);
        assert(lists_view(keys@) =~= before.push(rv));
        assert(lists_view(keys@) =~= lists_view(resolved@).take(i as int + 1));
        i = i + 1;
    }
    assert(lists_view(resolved@).take(i as int) =~= lists_view(resolved@));
    Err(EvalError::MissingMatchDefault { keys })
}


// ---------------------------------------------------------------------------
// Maps
// ---------------------------------------------------------------------------

pub(crate) proof fn lemma_key_index_at<V>(env: Seq<(Seq<char>, V)>, k: Seq<char>, i: int)
    requires
        0 <= i < env.len(),
        env[i].0 == k,
        forall|j: int| 0 <= j < i ==> #[trigger] env[j].0 != k,
    ensures
        key_index(env, k) == Some(i),
    decreases env.len(),
{
    if i < env.len() - 1 {
        lemma_key_index_at(env.drop_last(), k, i);
    } else {
        lemma_key_index_none(env.drop_last(), k);
    }
}

pub(crate) proof fn lemma_key_index_none<V>(env: Seq<(Seq<char>, V)>, k: Seq<char>)
    requires
        forall|j: int| 0 <= j < env.len() ==> #[trigger] env[j].0 != k,
    ensures
        key_index(env, k) is None,
    decreases env.len(),
{
    if env.len() > 0 {
        lemma_key_index_none(env.drop_last(), k);
    }
}

pub open spec fn values_view(v: Seq<Value>) -> Seq<ValueModel> {
    v.map_values(|x: Value| x@)
}

fn insert_param(m: &mut Vec<(String, Value)>, k: String, v: Value)
    ensures
        crate::context::params_view(final(m)@) == env_insert(crate::context::params_view(old(m)@), k@, v@),
{
    let ghost env = crate::context::params_view(m@);
    let mut i: usize = 0;
    while i < m.len()
        invariant
            i <= m.len(),
            env == crate::context::params_view(m@),
            env == crate::context::params_view(old(m)@),
            forall|j: int| 0 <= j < i ==> #[trigger] env[j].0 != k@,
        decreases m.len() - i,
    {
        assert(env[i as int].0 == m@[i as int].0@);
        if str_eq(m[i].0.as_str(), k.as_str()) {
            proof {
                lemma_key_index_at(env, k@, i as int);
            }
            let ghost kv = (k@, v@);
            m.remove(i);
            m.insert(i, (k, v));
            assert(crate::context::params_view(m@) =~= env.update(i as int, kv));
            return;
        }
        i = i + 1;
    }
    proof {
        lemma_key_index_none(env, k@);
    }
    let ghost kv = (k@, v@);
    m.push((k, v));
    assert(crate::context::params_view(m@) =~= env.push(kv));
}

fn insert_variant(m: &mut Vec<(VariantKey, String)>, k: String, t: String)
    ensures
        entries_view(final(m)@) == env_insert(entries_view(old(m)@), k@, t@),
{
    let ghost env = entries_view(m@);
    let mut i: usize = 0;
    while i < m.len()
        invariant
            i <= m.len(),
            env == entries_view(m@),
            env == entries_view(old(m)@),
            forall|j: int| 0 <= j < i ==> #[trigger] env[j].0 != k@,
        decreases m.len() - i,
    {
        assert(env[i as int].0 == m@[i as int].0.0@);
        if str_eq(m[i].0.0.as_str(), k.as_str()) {
            proof {
                lemma_key_index_at(env, k@, i as int);
            }
            let ghost kv = (k@, t@);
            m.remove(i);
            m.insert(i, (VariantKey(k), t));
            assert(entries_view(m@) =~= env.update(i as int, kv));
            return;
        }
        i = i + 1;
    }
    proof {
        lemma_key_index_none(env, k@);
    }
    let ghost kv = (k@, t@);
    m.push((VariantKey(k), t));
    assert(entries_view(m@) =~= env.push(kv));
}

/// Parameter names bound to values.
pub(crate) fn bind_params_exec(names: &Vec<String>, vals: Vec<Value>) -> (r: Vec<(String, Value)>)
    requires
        names.len() == vals.len(),
    ensures
        crate::context::params_view(r@) == bind_params(strings_view(names@), values_view(vals@)),
{
    let ghost nv = strings_view(names@);
    let ghost vv = values_view(vals@);
    let mut vals = vals;
    let mut rev: Vec<Value> = Vec::new();
    // Values in reverse order, so that they can be taken from the end.
    while vals.len() > 0
        invariant
            values_view(vals@) + values_view(rev@).reverse() == vv,
        decreases vals.len(),
    {
        let ghost before = values_view(vals@);
        let ghost before_rev = values_view(rev@);
        let x = vals.pop().unwrap();
        let ghost xv = x@;
        rev.push(x);
        assert(values_view(vals@) =~= before.drop_last());
        assert(values_view(rev@) =~= before_rev.push(xv));
        assert(values_view(rev@).reverse() =~= seq![xv] + before_rev.reverse());
        assert(before =~= before.drop_last().push(xv));
        assert(values_view(vals@) + values_view(rev@).reverse() =~= before + before_rev.reverse());
    }
    assert(values_view(rev@).reverse() =~= vv);
    let mut out: Vec<(String, Value)> = Vec::new();
    let mut i: usize = 0;
    while i < names.len()
        invariant
            i <= names.len(),
            names.len() == vv.len(),
            nv == strings_view(names@),
            rev.len() + i == names.len(),
            values_view(rev@).reverse() == vv.skip(i as int),
            crate::context::params_view(out@) == bind_params(nv.take(i as int), vv.take(i as int)),
        decreases names.len() - i,
    {
        let ghost before_rev = values_view(rev@);
        let x = rev.pop().unwrap();
        assert(x@ == vv[i as int]) by {
            assert(before_rev.reverse()[0] == before_rev.last());
        }
        assert(values_view(rev@) =~= before_rev.drop_last());
        assert(values_view(rev@).reverse() =~= vv.skip(i as int + 1)) by {
            assert(before_rev.reverse() =~= seq![before_rev.last()] + before_rev.drop_last().reverse());
            assert(vv.skip(i as int + 1) =~= vv.skip(i as int).drop_first());
            assert(before_rev.drop_last().reverse() =~= before_rev.reverse().drop_first());
        }
        assert(nv.take(i as int + 1).drop_last() =~= nv.take(i as int));
        assert(vv.take(i as int + 1).drop_last() =~= vv.take(i as int));
        insert_param(&mut out, copy_string(&names[i]), x);
        i = i + 1;
    }
    assert(nv.take(i as int) =~= nv);
    assert(vv.take(i as int) =~= vv);
    out
}

/// The parameters of one `:from` variant.
fn variant_params_exec(fp: &str, phrase: Phrase, names: &Vec<String>, ctx: &EvalContext) -> (r: Vec<(String, Value)>)
    ensures
        crate::context::params_view(r@) == variant_params(fp@, phrase@, strings_view(names@), ctx@.params),
{
    let ghost nv = strings_view(names@);
    let ghost pm = phrase@;
    let mut out: Vec<(String, Value)> = Vec::new();
    out.push((to_string(fp), Value::Phrase(phrase)));
    assert(crate::context::params_view(out@) =~= seq![(fp@, ValueModel::Phrase(pm))]);
    assert(nv.take(0) =~= seq![]);
    let mut i: usize = 0;
    while i < names.len()
        invariant
            i <= names.len(),
            nv == strings_view(names@),
            crate::context::params_view(out@) == variant_params(fp@, pm, nv.take(i as int), ctx@.params),
        decreases names.len() - i,
    {
        assert(nv.take(i as int + 1).drop_last() =~= nv.take(i as int));
        assert(nv[i as int] == names@[i as int]@);
        if !str_eq(names[i].as_str(), fp) {
            match ctx.get_param(names[i].as_str()) {
                Some(v) => {
                    insert_param(&mut out, copy_string(&names[i]), v.duplicate());
                },
                None => {},
            }
        }
        i = i + 1;
    }
    assert(nv.take(i as int) =~= nv);
    out
}

// ---------------------------------------------------------------------------
// Variant entries
// ---------------------------------------------------------------------------

fn keys_contain(keys: &Vec<String>, k: &Vec<char>) -> (r: bool)
    ensures
        r == strings_view(keys@).contains(k@),
{
    list_contains(keys, k)
}

fn last_entry_with_key_exec(es: &Vec<crate::ast::VariantEntry>, k: &Vec<char>) -> (r: Option<usize>)
    ensures
        match r {
            Some(i) => last_entry_with_key(crate::ast::entries_model(es@), k@) == Some(i as int) && i < es.len(),
            None => last_entry_with_key(crate::ast::entries_model(es@), k@) is None,
        },
{
    let ghost ev = crate::ast::entries_model(es@);
    let mut i = es.len();
    assert(ev.take(i as int) =~= ev);
    while i > 0
        invariant
            i <= es.len(),
            ev == crate::ast::entries_model(es@),
            last_entry_with_key(ev, k@) == last_entry_with_key(ev.take(i as int), k@),
        decreases i,
    {
        assert(ev.take(i as int).last() == es@[i as int - 1]@);
        assert(ev.take(i as int).drop_last() =~= ev.take(i as int - 1));
        if keys_contain(&es[i - 1].keys, k) {
            return Some(i - 1);
        }
        i = i - 1;
    }
    None
}

fn entry_for_key_exec(es: &Vec<crate::ast::VariantEntry>, key: &Vec<char>) -> (r: Option<usize>)
    ensures
        match r {
            Some(i) => entry_for_key(crate::ast::entries_model(es@), key@) == Some(i as int) && i < es.len(),
            None => entry_for_key(crate::ast::entries_model(es@), key@) is None,
        },
{
    let ghost ev = crate::ast::entries_model(es@);
    let mut cur = crate::text::slice_range(key.as_slice(), 0, key.len());
    assert(cur@ =~= key@);
    loop
        invariant
            ev == crate::ast::entries_model(es@),
            entry_for_key(ev, key@) == entry_for_key(ev, cur@),
        decreases cur.len(),
    {
        match last_entry_with_key_exec(es, &cur) {
            Some(i) => return Some(i),
            None => {},
        }
        match crate::types::rfind_dot(cur.as_slice()) {
            None => return None,
            Some(d) => {
                proof {
                    crate::types::lemma_last_dot(cur@);
                }
                let next = crate::text::slice_range(cur.as_slice(), 0, d);
                assert(next@ =~= cur@.take(d as int));
                cur = next;
            },
        }
    }
}

fn last_default_exec(es: &Vec<crate::ast::VariantEntry>) -> (r: Option<usize>)
    ensures
        match r {
            Some(i) => last_default_entry(crate::ast::entries_model(es@)) == Some(i as int) && i < es.len(),
            None => last_default_entry(crate::ast::entries_model(es@)) is None,
        },
{
    let ghost ev = crate::ast::entries_model(es@);
    let mut i = es.len();
    assert(ev.take(i as int) =~= ev);
    while i > 0
        invariant
            i <= es.len(),
            ev == crate::ast::entries_model(es@),
            last_default_entry(ev) == last_default_entry(ev.take(i as int)),
        decreases i,
    {
        assert(ev.take(i as int).last() == es@[i as int - 1]@);
        assert(ev.take(i as int).drop_last() =~= ev.take(i as int - 1));
        if es[i - 1].is_default {
            return Some(i - 1);
        }
        i = i - 1;
    }
    None
}

fn entry_keys_exec(es: &Vec<crate::ast::VariantEntry>) -> (r: Vec<String>)
    ensures
        strings_view(r@) == entry_keys(crate::ast::entries_model(es@)),
{
    let ghost ev = crate::ast::entries_model(es@);
    let mut out: Vec<String> = Vec::new();
    let mut i: usize = 0;
    assert(strings_view(out@) =~= seq![]);
    while i < es.len()
        invariant
            i <= es.len(),
            ev == crate::ast::entries_model(es@),
            strings_view(out@) == entry_keys(ev.take(i as int)),
        decreases es.len() - i,
    {
        let keys = &es[i].keys;
        let ghost base = strings_view(out@);
        assert(ev[i as int].keys == strings_view(keys@));
        let mut j: usize = 0;
        while j < keys.len()
            invariant
                i < es.len(),
                keys == &es@[i as int].keys,
                j <= keys.len(),
                strings_view(out@) == distinct_append(base, strings_view(keys@).take(j as int)),
            decreases keys.len() - j,
        {
            let kc = chars_of(keys[j].as_str());
            assert(strings_view(keys@).take(j as int + 1).drop_last() =~= strings_view(keys@).take(j as int));
            if !list_contains(&out, &kc) {
                let ghost before = strings_view(out@);
                out.push(copy_string(&keys[j]));
                assert(strings_view(out@) =~= before.push(keys@[j as int]@));
            }
            j = j + 1;
        }
        assert(strings_view(keys@).take(j as int) =~= strings_view(keys@));
        assert(ev.take(i as int + 1).drop_last() =~= ev.take(i as int));
        i = i + 1;
    }
    assert(ev.take(i as int) =~= ev);
    out
}


// ---------------------------------------------------------------------------
// Error propagation through sequences
// ---------------------------------------------------------------------------

proof fn lemma_segs_err(reg: Seq<crate::ast::PhraseDefinitionModel>, segs: Seq<crate::ast::SegmentModel>, c: crate::context::CtxModel, lang: Seq<char>, k: int)
    requires
        0 < k <= segs.len(),
        eval_segs(reg, segs.take(k), c, lang) is Err,
    ensures
        eval_segs(reg, segs, c, lang) == eval_segs(reg, segs.take(k), c, lang),
    decreases segs.len() - k,
{
    if k < segs.len() {
        assert(segs.take(k + 1).drop_last() =~= segs.take(k));
        lemma_segs_err(reg, segs, c, lang, k + 1);
    } else {
        assert(segs.take(k) =~= segs);
    }
}

proof fn lemma_texts_err(reg: Seq<crate::ast::PhraseDefinitionModel>, es: Seq<crate::ast::VariantEntryModel>, c: crate::context::CtxModel, lang: Seq<char>, k: int)
    requires
        0 < k <= es.len(),
        entry_texts(reg, es.take(k), c, lang) is Err,
    ensures
        entry_texts(reg, es, c, lang) == entry_texts(reg, es.take(k), c, lang),
    decreases es.len() - k,
{
    if k < es.len() {
        assert(es.take(k + 1).drop_last() =~= es.take(k));
        lemma_texts_err(reg, es, c, lang, k + 1);
    } else {
        assert(es.take(k) =~= es);
    }
}

proof fn lemma_args_err(reg: Seq<crate::ast::PhraseDefinitionModel>, call: crate::ast::ReferenceModel, c: crate::context::CtxModel, lang: Seq<char>, k: int, n: int)
    requires
        call is PhraseCall,
        0 < k <= n,
        n <= call->args.len(),
        resolve_args(reg, call, k, c, lang) is Err,
    ensures
        resolve_args(reg, call, n, c, lang) == resolve_args(reg, call, k, c, lang),
    decreases n - k,
{
    if k < n {
        lemma_args_err(reg, call, c, lang, k + 1, n);
    }
}

proof fn lemma_simple_loop_err(reg: Seq<crate::ast::PhraseDefinitionModel>, d: crate::ast::PhraseDefinitionModel, fp: Seq<char>, sp: PhraseModel, t: Seq<crate::ast::SegmentModel>, keys: Seq<Seq<char>>, c: crate::context::CtxModel, lang: Seq<char>, k: int)
    requires
        0 < k <= keys.len(),
        from_simple_loop(reg, d, fp, sp, t, keys.take(k), c, lang) is Err,
    ensures
        from_simple_loop(reg, d, fp, sp, t, keys, c, lang) == from_simple_loop(reg, d, fp, sp, t, keys.take(k), c, lang),
    decreases keys.len() - k,
{
    if k < keys.len() {
        assert(keys.take(k + 1).drop_last() =~= keys.take(k));
        lemma_simple_loop_err(reg, d, fp, sp, t, keys, c, lang, k + 1);
    } else {
        assert(keys.take(k) =~= keys);
    }
}

proof fn lemma_variants_loop_err(reg: Seq<crate::ast::PhraseDefinitionModel>, d: crate::ast::PhraseDefinitionModel, fp: Seq<char>, sp: PhraseModel, es: Seq<crate::ast::VariantEntryModel>, keys: Seq<Seq<char>>, c: crate::context::CtxModel, lang: Seq<char>, k: int)
    requires
        0 < k <= keys.len(),
        from_variants_loop(reg, d, fp, sp, es, keys.take(k), c, lang) is Err,
    ensures
        from_variants_loop(reg, d, fp, sp, es, keys, c, lang) == from_variants_loop(reg, d, fp, sp, es, keys.take(k), c, lang),
    decreases keys.len() - k,
{
    if k < keys.len() {
        assert(keys.take(k + 1).drop_last() =~= keys.take(k));
        lemma_variants_loop_err(reg, d, fp, sp, es, keys, c, lang, k + 1);
    } else {
        assert(keys.take(k) =~= keys);
    }
}

proof fn lemma_match_loop_err(reg: Seq<crate::ast::PhraseDefinitionModel>, d: crate::ast::PhraseDefinitionModel, fp: Seq<char>, sp: PhraseModel, bs: Seq<crate::ast::MatchBranchModel>, keys: Seq<Seq<char>>, c: crate::context::CtxModel, lang: Seq<char>, k: int)
    requires
        0 < k <= keys.len(),
        from_match_loop(reg, d, fp, sp, bs, keys.take(k), c, lang) is Err,
    ensures
        from_match_loop(reg, d, fp, sp, bs, keys, c, lang) == from_match_loop(reg, d, fp, sp, bs, keys.take(k), c, lang),
    decreases keys.len() - k,
{
    if k < keys.len() {
        assert(keys.take(k + 1).drop_last() =~= keys.take(k));
        lemma_match_loop_err(reg, d, fp, sp, bs, keys, c, lang, k + 1);
    } else {
        assert(keys.take(k) =~= keys);
    }
}

proof fn lemma_extends_trans(a: crate::context::CtxModel, b: crate::context::CtxModel, c: crate::context::CtxModel)
    requires
        crate::context::ctx_extends(a, b),
        crate::context::ctx_extends(b, c),
    ensures
        crate::context::ctx_extends(a, c),
{
}


// ---------------------------------------------------------------------------
// Evaluation
// ---------------------------------------------------------------------------

/// The arguments of a call plus one; 0 for other references.
pub open spec fn ref_arity(r: Reference) -> int {
    match r {
        Reference::PhraseCall { args, .. } => args@.len() as int + 1,
        _ => 0,
    }
}

pub open spec fn outcome_phrase(r: Result<Phrase, EvalError>) -> Result<PhraseModel, EvalErrorModel> {
    match r {
        Ok(p) => Ok(p@),
        Err(e) => Err(e@),
    }
}

proof fn lemma_push_extends(c0: CtxModel, n: Seq<char>)
    requires
        push_spec_ok(c0, n),
    ensures
        ctx_extends(c0, crate::context::push_spec(c0, n)->Ok_0),
{
    let c1 = crate::context::push_spec(c0, n)->Ok_0;
}

pub open spec fn push_spec_ok(c: CtxModel, n: Seq<char>) -> bool {
    crate::context::push_spec(c, n) is Ok
}

/// Evaluates a template: literals as they are, each interpolation's
/// reference resolved, its selectors applied, then its transforms (right to
/// left).
pub fn eval_template(template: &Template, ctx: &mut EvalContext<'_>, registry: &PhraseRegistry, transform_registry: &TransformRegistry, lang: &str) -> (r: Result<String, EvalError>)
    ensures
        outcome(r) == eval_segs(registry@.defs, template@, old(ctx)@, lang@),
        r is Ok ==> final(ctx)@ == old(ctx)@,
        ctx_extends(old(ctx)@, final(ctx)@),
    decreases nest_left(old(ctx)@), depth_left(old(ctx)@), 3int, Reference::NumberLiteral(0), 0int,
{
    let ghost c0 = ctx@;
    let ghost segs = template@;
    let ghost reg = registry@.defs;
    let mut out = String::new();
    let mut i: usize = 0;
    assert(segs.take(0) =~= seq![]);
    while i < template.segments.len()
        invariant
            i <= template.segments.len(),
            segs == template@,
            reg == registry@.defs,
            ctx@ == c0,
            c0 == old(ctx)@,
            eval_segs(reg, segs.take(i as int), c0, lang@) == Ok::<Seq<char>, EvalErrorModel>(out@),
        decreases template.segments.len() - i,
    {
        assert(segs.take(i as int + 1).drop_last() =~= segs.take(i as int));
        assert(segs[i as int] == template.segments@[i as int]@);
        assert(segs.take(i as int + 1).last() == segs[i as int]);
        match &template.segments[i] {
            Segment::Literal(t) => {
                push_str(&mut out, t.as_str());
            },
            Segment::Interpolation { transforms, reference, selectors } => {
                let v = match resolve_reference(reference, ctx, registry, transform_registry, lang) {
                    Ok(v) => v,
                    Err(e) => {
                        proof {
                            lemma_segs_err(reg, segs, c0, lang@, i as int + 1);
                        }
                        return Err(e);
                    },
                };
                let sv = match apply_selectors(&v, selectors, ctx, lang) {
                    Ok(x) => x,
                    Err(e) => {
                        proof {
                            lemma_segs_err(reg, segs, c0, lang@, i as int + 1);
                        }
                        return Err(e);
                    },
                };
                let t = match apply_transforms(&sv, transforms, transform_registry, ctx, lang) {
                    Ok(x) => x,
                    Err(e) => {
                        proof {
                            lemma_segs_err(reg, segs, c0, lang@, i as int + 1);
                        }
                        return Err(e);
                    },
                };
                push_str(&mut out, t.as_str());
            },
        }
        i = i + 1;
    }
    assert(segs.take(i as int) =~= segs);
    Ok(out)
}

/// Resolves the arguments of a phrase call, left to right, stopping at the
/// first error.
fn resolve_call_args(reference: &Reference, ctx: &mut EvalContext<'_>, registry: &PhraseRegistry, transform_registry: &TransformRegistry, lang: &str) -> (r: Result<Vec<Value>, EvalError>)
    requires
        *reference is PhraseCall,
    ensures
        match r {
            Ok(vs) => resolve_args(registry@.defs, reference@, ref_arity(*reference) - 1, old(ctx)@, lang@)
                == Ok::<Seq<ValueModel>, EvalErrorModel>(values_view(vs@)),
            Err(e) => resolve_args(registry@.defs, reference@, ref_arity(*reference) - 1, old(ctx)@, lang@)
                == Err::<Seq<ValueModel>, EvalErrorModel>(e@),
        },
        r matches Ok(vs) ==> vs.len() == ref_arity(*reference) - 1,
        r is Ok ==> final(ctx)@ == old(ctx)@,
        ctx_extends(old(ctx)@, final(ctx)@),
    decreases nest_left(old(ctx)@), depth_left(old(ctx)@), 2int, *reference, ref_arity(*reference) - 1,
{
    let ghost c0 = ctx@;
    let ghost reg = registry@.defs;
    let ghost call = reference@;
    let args = match reference {
        Reference::PhraseCall { args, .. } => args,
        _ => { return Ok(Vec::new()); },
    };
    assert(call->args.len() == args.len());
    assert forall|j: int| 0 <= j < args.len() implies call->args[j] == args@[j]@ by {
        assert(call->args[j] == reference_model(args@[j]));
    }
    let mut vals: Vec<Value> = Vec::new();
    let mut i: usize = 0;
    assert(values_view(vals@) =~= seq![]);
    while i < args.len()
        invariant
            i <= args.len(),
            vals.len() == i,
            *reference is PhraseCall,
            args == reference->args,
            call == reference@,
            call is PhraseCall,
            call->args.len() == args.len(),
            forall|j: int| 0 <= j < args.len() ==> call->args[j] == #[trigger] args@[j]@,
            reg == registry@.defs,
            ctx@ == c0,
            c0 == old(ctx)@,
            resolve_args(reg, call, i as int, c0, lang@) == Ok::<Seq<ValueModel>, EvalErrorModel>(values_view(vals@)),
        decreases args.len() - i,
    {
        assert(call->args[i as int] == args@[i as int]@);
        proof {
            assert(decreases_to!(*reference => reference->args));
            assert(decreases_to!(reference->args => reference->args@));
            assert(decreases_to!(args@ => args@[i as int]));
        }
        let v = match resolve_reference(&args[i], ctx, registry, transform_registry, lang) {
            Ok(v) => v,
            Err(e) => {
                proof {
                    lemma_args_err(reg, call, c0, lang@, i as int + 1, args.len() as int);
                }
                return Err(e);
            },
        };
        let ghost before = values_view(vals@);
        let ghost vm = v@;
        vals.push(v);
        assert(values_view(vals@) =~= before.push(vm));
        i = i + 1;
    }
    Ok(vals)
}

/// Resolves a reference to a value.
fn resolve_reference(reference: &Reference, ctx: &mut EvalContext<'_>, registry: &PhraseRegistry, transform_registry: &TransformRegistry, lang: &str) -> (r: Result<Value, EvalError>)
    ensures
        outcome_value(r) == resolve_ref(registry@.defs, reference@, old(ctx)@, lang@),
        r is Ok ==> final(ctx)@ == old(ctx)@,
        ctx_extends(old(ctx)@, final(ctx)@),
    decreases nest_left(old(ctx)@), depth_left(old(ctx)@), 2int, *reference, ref_arity(*reference),
{
    let ghost c0 = ctx@;
    let ghost reg = registry@.defs;
    match reference {
        Reference::Parameter(name) => match ctx.get_param(name.as_str()) {
            Some(v) => Ok(v.duplicate()),
            None => Err(EvalError::UnknownParameter { name: copy_string(name) }),
        },
        Reference::Identifier(name) => {
            let def = match registry.get(name.as_str()) {
                Some(d) => d,
                None => return Err(EvalError::PhraseNotFound { name: copy_string(name) }),
            };
            if def.kind == DefinitionKind::Phrase {
                return Err(EvalError::SelectorOnPhrase { name: copy_string(name) });
            }
            match ctx.push_call(name.as_str()) {
                Ok(()) => {},
                Err(e) => return Err(e),
            }
            let ghost c1 = ctx@;
            proof {
                lemma_push_extends(c0, name@);
            }
            let result = match eval_phrase_def(def, ctx, registry, transform_registry, lang) {
                Ok(p) => p,
                Err(e) => {
                    proof {
                        lemma_extends_trans(c0, c1, ctx@);
                    }
                    return Err(e);
                },
            };
            ctx.pop_call();
            assert(ctx@.stack =~= c0.stack);
            Ok(Value::Phrase(result))
        },
        Reference::NumberLiteral(n) => Ok(Value::Number(*n)),
        Reference::StringLiteral(t) => Ok(Value::String(copy_string(t))),
        Reference::PhraseCall { name, args } => {
            let ghost call = reference@;
            let def = match registry.get(name.as_str()) {
                Some(d) => d,
                None => return Err(EvalError::PhraseNotFound { name: copy_string(name) }),
            };
            if def.kind == DefinitionKind::Term {
                return Err(EvalError::ArgumentsToTerm { name: copy_string(name) });
            }
            assert(call->args.len() == args.len());
            if def.parameters.len() != args.len() {
                return Err(
                    EvalError::ArgumentCount {
                        phrase: copy_string(name),
                        expected: def.parameters.len(),
                        got: args.len(),
                    },
                );
            }
            let vals = match resolve_call_args(reference, ctx, registry, transform_registry, lang) {
                Ok(vs) => vs,
                Err(e) => return Err(e),
            };
            if ctx.nesting() >= 256 {
                return Err(EvalError::MaxDepthExceeded);
            }
            let params = bind_params_exec(&def.parameters, vals);
            let mut child = ctx.child(&params);
            match child.push_call(name.as_str()) {
                Ok(()) => {},
                Err(e) => return Err(e),
            }
            let result = match eval_phrase_def(def, &mut child, registry, transform_registry, lang) {
                Ok(p) => p,
                Err(e) => return Err(e),
            };
            Ok(Value::Phrase(result))
        },
    }
}

/// Evaluates a phrase definition: a simple template, a variant block or a
/// `:match` block, with the definition's tags; `:from` definitions inherit
/// from their source parameter.
pub fn eval_phrase_def(def: &PhraseDefinition, ctx: &mut EvalContext<'_>, registry: &PhraseRegistry, transform_registry: &TransformRegistry, lang: &str) -> (r: Result<Phrase, EvalError>)
    ensures
        outcome_phrase(r) == eval_def(registry@.defs, def@, old(ctx)@, lang@),
        r is Ok ==> final(ctx)@ == old(ctx)@,
        ctx_extends(old(ctx)@, final(ctx)@),
    decreases nest_left(old(ctx)@), depth_left(old(ctx)@), 12int, Reference::NumberLiteral(0), 0int,
{
    match &def.from_param {
        Some(fp) => {
            return eval_with_from_modifier(def, fp.as_str(), ctx, registry, transform_registry, lang);
        },
        None => {},
    }
    match &def.body {
        PhraseBody::Simple(t) => {
            let text = match eval_template(t, ctx, registry, transform_registry, lang) {
                Ok(x) => x,
                Err(e) => return Err(e),
            };
            let p = Phrase { text, variants: Vec::new(), tags: copy_tags(&def.tags) };
            assert(p@.variants =~= seq![]);
            Ok(p)
        },
        PhraseBody::Variants(es) => {
            let (text, variants) = match build_phrase_from_variants(es, ctx, registry, transform_registry, lang) {
                Ok(x) => x,
                Err(e) => return Err(e),
            };
            Ok(Phrase { text, variants, tags: copy_tags(&def.tags) })
        },
        PhraseBody::Match(bs) => {
            let text = match eval_match_branches(bs, &def.match_params, ctx, registry, transform_registry, lang) {
                Ok(x) => x,
                Err(e) => return Err(e),
            };
            let p = Phrase { text, variants: Vec::new(), tags: copy_tags(&def.tags) };
            assert(p@.variants =~= seq![]);
            Ok(p)
        },
    }
}

/// Evaluates a `:match` block.
fn eval_match_branches(bs: &Vec<MatchBranch>, params: &Vec<String>, ctx: &mut EvalContext<'_>, registry: &PhraseRegistry, transform_registry: &TransformRegistry, lang: &str) -> (r: Result<String, EvalError>)
    ensures
        outcome(r) == eval_match(registry@.defs, branches_view(bs@), strings_view(params@), old(ctx)@, lang@),
        r is Ok ==> final(ctx)@ == old(ctx)@,
        ctx_extends(old(ctx)@, final(ctx)@),
    decreases nest_left(old(ctx)@), depth_left(old(ctx)@), 4int, Reference::NumberLiteral(0), 0int,
{
    let resolved = match match_candidates_exec(params, ctx, lang) {
        Ok(x) => x,
        Err(e) => return Err(e),
    };
    let b = match select_branch_exec(bs, &resolved, params.len()) {
        Ok(b) => b,
        Err(e) => return Err(e),
    };
    assert(branches_view(bs@)[b as int].template == bs@[b as int].template@);
    eval_template(&bs[b].template, ctx, registry, transform_registry, lang)
}

/// Evaluates the body of a variant entry.
fn eval_variant_entry_body(body: &VariantEntryBody, ctx: &mut EvalContext<'_>, registry: &PhraseRegistry, transform_registry: &TransformRegistry, lang: &str) -> (r: Result<String, EvalError>)
    ensures
        outcome(r) == eval_entry_body(registry@.defs, body@, old(ctx)@, lang@),
        r is Ok ==> final(ctx)@ == old(ctx)@,
        ctx_extends(old(ctx)@, final(ctx)@),
    decreases nest_left(old(ctx)@), depth_left(old(ctx)@), 5int, Reference::NumberLiteral(0), 0int,
{
    match body {
        VariantEntryBody::Template(t) => eval_template(t, ctx, registry, transform_registry, lang),
        VariantEntryBody::Match { match_params, branches } => eval_match_branches(
            branches,
            match_params,
            ctx,
            registry,
            transform_registry,
            lang,
        ),
    }
}

fn variants_of_exec(es: &Vec<VariantEntry>, texts: &Vec<String>) -> (r: Vec<(VariantKey, String)>)
    requires
        es.len() == texts.len(),
    ensures
        entries_view(r@) == variants_of(entries_model(es@), strings_view(texts@)),
{
    let ghost ev = entries_model(es@);
    let ghost tv = strings_view(texts@);
    let mut vs: Vec<(VariantKey, String)> = Vec::new();
    assert(entries_view(vs@) =~= seq![]);
    let mut i: usize = 0;
    while i < es.len()
        invariant
            i <= es.len(),
            es.len() == texts.len(),
            ev == entries_model(es@),
            tv == strings_view(texts@),
            entries_view(vs@) == variants_of(ev.take(i as int), tv.take(i as int)),
        decreases es.len() - i,
    {
        let keys = &es[i].keys;
        let ghost base = entries_view(vs@);
        assert(ev[i as int].keys == strings_view(keys@));
        assert(tv[i as int] == texts@[i as int]@);
        let mut j: usize = 0;
        assert(strings_view(keys@).take(0) =~= seq![]);
        while j < keys.len()
            invariant
                i < es.len(),
                es.len() == texts.len(),
                keys == &es@[i as int].keys,
                j <= keys.len(),
                entries_view(vs@) == insert_all(base, strings_view(keys@).take(j as int), texts@[i as int]@),
            decreases keys.len() - j,
        {
            assert(strings_view(keys@).take(j as int + 1).drop_last() =~= strings_view(keys@).take(j as int));
            insert_variant(&mut vs, copy_string(&keys[j]), copy_string(&texts[i]));
            j = j + 1;
        }
        assert(strings_view(keys@).take(j as int) =~= strings_view(keys@));
        assert(ev.take(i as int + 1).drop_last() =~= ev.take(i as int));
        assert(tv.take(i as int + 1).drop_last() =~= tv.take(i as int));
        i = i + 1;
    }
    assert(ev.take(i as int) =~= ev);
    assert(tv.take(i as int) =~= tv);
    vs
}

fn block_default_exec(es: &Vec<VariantEntry>, texts: &Vec<String>, sc: Option<&str>) -> (r: String)
    requires
        es.len() == texts.len(),
    ensures
        r@ == block_default_text(
            entries_model(es@),
            strings_view(texts@),
            match sc {
                Some(x) => Some(x@),
                None => None,
            },
        ),
{
    let ghost ev = entries_model(es@);
    let ghost scv = match sc {
        Some(x) => Some(x@),
        None => None::<Seq<char>>,
    };
    match sc {
        Some(x) => {
            let xc = chars_of(x);
            let mut i: usize = 0;
            while i < es.len()
                invariant
                    i <= es.len(),
                    es.len() == texts.len(),
                    ev == entries_model(es@),
                    scv == Some(x@),
                    sc == Some(x),
                    xc@ == x@,
                    context_entry(ev, scv, 0) == context_entry(ev, scv, i as int),
                decreases es.len() - i,
            {
                assert(ev[i as int].keys == strings_view(es@[i as int].keys@));
                if list_contains(&es[i].keys, &xc) {
                    assert(strings_view(texts@)[i as int] == texts@[i as int]@);
                    assert(context_entry(ev, scv, i as int) == Some(i as int));
                    return copy_string(&texts[i]);
                }
                i = i + 1;
            }
        },
        None => {},
    }
    assert(context_entry(ev, scv, 0) is None);
    let mut i: usize = 0;
    while i < es.len()
        invariant
            i <= es.len(),
            es.len() == texts.len(),
            ev == entries_model(es@),
            context_entry(ev, scv, 0) is None,
            scv == (match sc {
                Some(y) => Some(y@),
                None => None::<Seq<char>>,
            }),
            first_default_entry(ev, 0) == first_default_entry(ev, i as int),
        decreases es.len() - i,
    {
        assert(ev[i as int].is_default == es@[i as int].is_default);
        if es[i].is_default {
            assert(strings_view(texts@)[i as int] == texts@[i as int]@);
            assert(first_default_entry(ev, i as int) == Some(i as int));
            return copy_string(&texts[i]);
        }
        i = i + 1;
    }
    if es.len() > 0 {
        assert(strings_view(texts@)[0] == texts@[0]@);
        copy_string(&texts[0])
    } else {
        String::new()
    }
}

/// Evaluates a variant block: each entry's text, the variants by key, and
/// the default text (string-context entry, else `*` entry, else first).
fn build_phrase_from_variants(es: &Vec<VariantEntry>, ctx: &mut EvalContext<'_>, registry: &PhraseRegistry, transform_registry: &TransformRegistry, lang: &str) -> (r: Result<(String, Vec<(VariantKey, String)>), EvalError>)
    ensures
        match r {
            Ok((t, vs)) => entry_texts(registry@.defs, entries_model(es@), old(ctx)@, lang@) is Ok
                && t@ == block_default_text(
                entries_model(es@),
                entry_texts(registry@.defs, entries_model(es@), old(ctx)@, lang@)->Ok_0,
                old(ctx)@.string_context,
            ) && entries_view(vs@) == variants_of(
                entries_model(es@),
                entry_texts(registry@.defs, entries_model(es@), old(ctx)@, lang@)->Ok_0,
            ),
            Err(e) => entry_texts(registry@.defs, entries_model(es@), old(ctx)@, lang@) == Err::<
                Seq<Seq<char>>,
                EvalErrorModel,
            >(e@),
        },
        r is Ok ==> final(ctx)@ == old(ctx)@,
        ctx_extends(old(ctx)@, final(ctx)@),
    decreases nest_left(old(ctx)@), depth_left(old(ctx)@), 8int, Reference::NumberLiteral(0), 0int,
{
    let ghost c0 = ctx@;
    let ghost ev = entries_model(es@);
    let ghost reg = registry@.defs;
    let mut texts: Vec<String> = Vec::new();
    let mut i: usize = 0;
    assert(ev.take(0) =~= seq![]);
    assert(strings_view(texts@) =~= seq![]);
    while i < es.len()
        invariant
            i <= es.len(),
            texts.len() == i,
            ev == entries_model(es@),
            reg == registry@.defs,
            ctx@ == c0,
            c0 == old(ctx)@,
            entry_texts(reg, ev.take(i as int), c0, lang@) == Ok::<Seq<Seq<char>>, EvalErrorModel>(
                strings_view(texts@),
            ),
        decreases es.len() - i,
    {
        assert(ev.take(i as int + 1).drop_last() =~= ev.take(i as int));
        assert(ev.take(i as int + 1).last() == es@[i as int]@);
        let t = match eval_variant_entry_body(&es[i].body, ctx, registry, transform_registry, lang) {
            Ok(t) => t,
            Err(e) => {
                proof {
                    lemma_texts_err(reg, ev, c0, lang@, i as int + 1);
                }
                return Err(e);
            },
        };
        let ghost before = strings_view(texts@);
        let ghost tm = t@;
        texts.push(t);
        assert(strings_view(texts@) =~= before.push(tm));
        i = i + 1;
    }
    assert(ev.take(i as int) =~= ev);
    let text = block_default_exec(es, &texts, ctx.string_context());
    let variants = variants_of_exec(es, &texts);
    Ok((text, variants))
}


// ---------------------------------------------------------------------------
// :from
// ---------------------------------------------------------------------------

fn from_error(fp: &str, found: bool) -> (r: EvalError)
    ensures
        r@ == if found {
            from_not_phrase(fp@)
        } else {
            from_not_found(fp@)
        },
{
    let mut m = to_string("parameter '");
    push_str(&mut m, fp);
    if found {
        push_str(&mut m, "' must be a Phrase for :from modifier");
    } else {
        push_str(&mut m, "' not found for :from modifier");
    }
    EvalError::PhraseNotFound { name: m }
}

/// The phrase for one `:from` variant: the variant's text with the source's
/// tags and variants.
fn variant_phrase(sp: &Phrase, k: &Vec<char>) -> (r: Phrase)
    ensures
        r@ == (PhraseModel { text: source_text(sp@, k@), variants: sp@.variants, tags: sp@.tags }),
{
    let text = match crate::types::find_variant(&sp.variants, k.as_slice()) {
        Some(t) => copy_string(t),
        None => String::new(),
    };
    Phrase { text, variants: copy_variants(&sp.variants), tags: copy_tags(&sp.tags) }
}

/// The model of an evaluated list of variants, or of the error.
pub open spec fn outcome_entries(r: Result<Vec<(VariantKey, String)>, EvalError>) -> Result<Seq<(Seq<char>, Seq<char>)>, EvalErrorModel> {
    match r {
        Ok(vs) => Ok(entries_view(vs@)),
        Err(e) => Err(e@),
    }
}

/// Evaluates a simple `:from` body for one variant of the source phrase, in
/// a context of its own.
fn from_simple_variant(def: &PhraseDefinition, fp: &str, sp: &Phrase, t: &Template, key: &String, ctx: &EvalContext<'_>, registry: &PhraseRegistry, transform_registry: &TransformRegistry, lang: &str) -> (r: Result<String, EvalError>)
    requires
        ctx@.nesting < crate::context::max_nesting(),
    ensures
        outcome(r) == eval_segs(registry@.defs, t@, variant_ctx(def@, fp@, sp@, key@, ctx@), lang@),
    decreases nest_left(ctx@), depth_left(ctx@), 8int, Reference::NumberLiteral(0), 0int,
{
    let kc = chars_of(key.as_str());
    let vp = variant_phrase(sp, &kc);
    let params = variant_params_exec(fp, vp, &def.parameters, ctx);
    let mut child = ctx.child(&params);
    eval_template(t, &mut child, registry, transform_registry, lang)
}

/// Evaluates the body of a variant entry of a `:from` definition for one
/// variant of the source phrase, in a context of its own.
fn from_entry_variant(def: &PhraseDefinition, fp: &str, sp: &Phrase, body: &VariantEntryBody, key: &String, ctx: &EvalContext<'_>, registry: &PhraseRegistry, transform_registry: &TransformRegistry, lang: &str) -> (r: Result<String, EvalError>)
    requires
        ctx@.nesting < crate::context::max_nesting(),
    ensures
        outcome(r) == eval_entry_body(registry@.defs, body@, variant_ctx(def@, fp@, sp@, key@, ctx@), lang@),
    decreases nest_left(ctx@), depth_left(ctx@), 8int, Reference::NumberLiteral(0), 0int,
{
    let kc = chars_of(key.as_str());
    let vp = variant_phrase(sp, &kc);
    let params = variant_params_exec(fp, vp, &def.parameters, ctx);
    let mut child = ctx.child(&params);
    eval_variant_entry_body(body, &mut child, registry, transform_registry, lang)
}

/// Evaluates the `:match` block of a `:from` definition for one variant of
/// the source phrase, in a context of its own.
fn from_match_variant(def: &PhraseDefinition, fp: &str, sp: &Phrase, bs: &Vec<MatchBranch>, key: &String, ctx: &EvalContext<'_>, registry: &PhraseRegistry, transform_registry: &TransformRegistry, lang: &str) -> (r: Result<String, EvalError>)
    requires
        ctx@.nesting < crate::context::max_nesting(),
    ensures
        outcome(r) == eval_match(registry@.defs, branches_view(bs@), def@.match_params, variant_ctx(def@, fp@, sp@, key@, ctx@), lang@),
    decreases nest_left(ctx@), depth_left(ctx@), 8int, Reference::NumberLiteral(0), 0int,
{
    let kc = chars_of(key.as_str());
    let vp = variant_phrase(sp, &kc);
    let params = variant_params_exec(fp, vp, &def.parameters, ctx);
    let mut child = ctx.child(&params);
    eval_match_branches(bs, &def.match_params, &mut child, registry, transform_registry, lang)
}

/// The variants of a simple `:from` body, one per key of the source.
fn from_simple_all(def: &PhraseDefinition, fp: &str, sp: &Phrase, t: &Template, keys: &Vec<String>, ctx: &EvalContext<'_>, registry: &PhraseRegistry, transform_registry: &TransformRegistry, lang: &str) -> (r: Result<Vec<(VariantKey, String)>, EvalError>)
    ensures
        outcome_entries(r) == from_simple_loop(registry@.defs, def@, fp@, sp@, t@, strings_view(keys@), ctx@, lang@),
    decreases nest_left(ctx@), depth_left(ctx@), 9int, Reference::NumberLiteral(0), 0int,
{
    let ghost kv = strings_view(keys@);
    let ghost reg = registry@.defs;
    let mut vs: Vec<(VariantKey, String)> = Vec::new();
    assert(entries_view(vs@) =~= seq![]);
    assert(kv.take(0) =~= seq![]);
    let mut i: usize = 0;
    while i < keys.len()
        invariant
            i <= keys.len(),
            kv == strings_view(keys@),
            reg == registry@.defs,
            from_simple_loop(reg, def@, fp@, sp@, t@, kv.take(i as int), ctx@, lang@) == Ok::<
                Seq<(Seq<char>, Seq<char>)>,
                EvalErrorModel,
            >(entries_view(vs@)),
        decreases keys.len() - i,
    {
        assert(kv.take(i as int + 1).drop_last() =~= kv.take(i as int));
        assert(kv.take(i as int + 1).last() == keys@[i as int]@);
        if ctx.nesting() >= 256 {
            proof {
                lemma_simple_loop_err(reg, def@, fp@, sp@, t@, kv, ctx@, lang@, i as int + 1);
            }
            return Err(EvalError::MaxDepthExceeded);
        }
        let vt = match from_simple_variant(def, fp, sp, t, &keys[i], ctx, registry, transform_registry, lang) {
            Ok(x) => x,
            Err(e) => {
                proof {
                    lemma_simple_loop_err(reg, def@, fp@, sp@, t@, kv, ctx@, lang@, i as int + 1);
                }
                return Err(e);
            },
        };
        insert_variant(&mut vs, copy_string(&keys[i]), vt);
        i = i + 1;
    }
    assert(kv.take(i as int) =~= kv);
    Ok(vs)
}

/// The variants of a `:from` variant block, one per key of the source.
fn from_variants_all(def: &PhraseDefinition, fp: &str, sp: &Phrase, es: &Vec<VariantEntry>, keys: &Vec<String>, ctx: &EvalContext<'_>, registry: &PhraseRegistry, transform_registry: &TransformRegistry, lang: &str) -> (r: Result<Vec<(VariantKey, String)>, EvalError>)
    ensures
        outcome_entries(r) == from_variants_loop(registry@.defs, def@, fp@, sp@, entries_model(es@), strings_view(keys@), ctx@, lang@),
    decreases nest_left(ctx@), depth_left(ctx@), 9int, Reference::NumberLiteral(0), 0int,
{
    let ghost kv = strings_view(keys@);
    let ghost reg = registry@.defs;
    let ghost ev = entries_model(es@);
    let db = last_default_exec(es);
    let mut vs: Vec<(VariantKey, String)> = Vec::new();
    assert(entries_view(vs@) =~= seq![]);
    assert(kv.take(0) =~= seq![]);
    let mut i: usize = 0;
    while i < keys.len()
        invariant
            i <= keys.len(),
            kv == strings_view(keys@),
            ev == entries_model(es@),
            reg == registry@.defs,
            match db {
                Some(j) => last_default_entry(ev) == Some(j as int) && j < es.len(),
                None => last_default_entry(ev) is None,
            },
            from_variants_loop(reg, def@, fp@, sp@, ev, kv.take(i as int), ctx@, lang@) == Ok::<
                Seq<(Seq<char>, Seq<char>)>,
                EvalErrorModel,
            >(entries_view(vs@)),
        decreases keys.len() - i,
    {
        assert(kv.take(i as int + 1).drop_last() =~= kv.take(i as int));
        assert(kv.take(i as int + 1).last() == keys@[i as int]@);
        let kc = chars_of(keys[i].as_str());
        let idx = match entry_for_key_exec(es, &kc) {
            Some(j) => Some(j),
            None => db,
        };
        let j = match idx {
            Some(j) => j,
            None => {
                let mut phrase = to_string(":from variant block in '");
                push_str(&mut phrase, def.name.as_str());
                push_str(&mut phrase, "'");
                let suggestions: Vec<String> = Vec::new();
                assert(strings_view(suggestions@) =~= seq![]);
                proof {
                    lemma_variants_loop_err(reg, def@, fp@, sp@, ev, kv, ctx@, lang@, i as int + 1);
                }
                return Err(
                    EvalError::MissingVariant {
                        phrase,
                        key: copy_string(&keys[i]),
                        available: entry_keys_exec(es),
                        suggestions,
                    },
                );
            },
        };
        if ctx.nesting() >= 256 {
            proof {
                lemma_variants_loop_err(reg, def@, fp@, sp@, ev, kv, ctx@, lang@, i as int + 1);
            }
            return Err(EvalError::MaxDepthExceeded);
        }
        assert(ev[j as int].body == es@[j as int].body@);
        let vt = match from_entry_variant(def, fp, sp, &es[j].body, &keys[i], ctx, registry, transform_registry, lang) {
            Ok(x) => x,
            Err(e) => {
                proof {
                    lemma_variants_loop_err(reg, def@, fp@, sp@, ev, kv, ctx@, lang@, i as int + 1);
                }
                return Err(e);
            },
        };
        insert_variant(&mut vs, copy_string(&keys[i]), vt);
        i = i + 1;
    }
    assert(kv.take(i as int) =~= kv);
    Ok(vs)
}

/// The variants of a `:from` `:match` block, one per key of the source.
fn from_match_all(def: &PhraseDefinition, fp: &str, sp: &Phrase, bs: &Vec<MatchBranch>, keys: &Vec<String>, ctx: &EvalContext<'_>, registry: &PhraseRegistry, transform_registry: &TransformRegistry, lang: &str) -> (r: Result<Vec<(VariantKey, String)>, EvalError>)
    ensures
        outcome_entries(r) == from_match_loop(registry@.defs, def@, fp@, sp@, branches_view(bs@), strings_view(keys@), ctx@, lang@),
    decreases nest_left(ctx@), depth_left(ctx@), 9int, Reference::NumberLiteral(0), 0int,
{
    let ghost kv = strings_view(keys@);
    let ghost reg = registry@.defs;
    let ghost bv = branches_view(bs@);
    let mut vs: Vec<(VariantKey, String)> = Vec::new();
    assert(entries_view(vs@) =~= seq![]);
    assert(kv.take(0) =~= seq![]);
    let mut i: usize = 0;
    while i < keys.len()
        invariant
            i <= keys.len(),
            kv == strings_view(keys@),
            bv == branches_view(bs@),
            reg == registry@.defs,
            from_match_loop(reg, def@, fp@, sp@, bv, kv.take(i as int), ctx@, lang@) == Ok::<
                Seq<(Seq<char>, Seq<char>)>,
                EvalErrorModel,
            >(entries_view(vs@)),
        decreases keys.len() - i,
    {
        assert(kv.take(i as int + 1).drop_last() =~= kv.take(i as int));
        assert(kv.take(i as int + 1).last() == keys@[i as int]@);
        if ctx.nesting() >= 256 {
            proof {
                lemma_match_loop_err(reg, def@, fp@, sp@, bv, kv, ctx@, lang@, i as int + 1);
            }
            return Err(EvalError::MaxDepthExceeded);
        }
        let vt = match from_match_variant(def, fp, sp, bs, &keys[i], ctx, registry, transform_registry, lang) {
            Ok(x) => x,
            Err(e) => {
                proof {
                    lemma_match_loop_err(reg, def@, fp@, sp@, bv, kv, ctx@, lang@, i as int + 1);
                }
                return Err(e);
            },
        };
        insert_variant(&mut vs, copy_string(&keys[i]), vt);
        i = i + 1;
    }
    assert(kv.take(i as int) =~= kv);
    Ok(vs)
}

/// Evaluates a definition with `:from($fp)`.
fn eval_with_from_modifier(def: &PhraseDefinition, fp: &str, ctx: &mut EvalContext<'_>, registry: &PhraseRegistry, transform_registry: &TransformRegistry, lang: &str) -> (r: Result<Phrase, EvalError>)
    requires
        def@.from_param == Some(fp@),
    ensures
        outcome_phrase(r) == eval_from(registry@.defs, def@, fp@, old(ctx)@, lang@),
        r is Ok ==> final(ctx)@ == old(ctx)@,
        ctx_extends(old(ctx)@, final(ctx)@),
    decreases nest_left(old(ctx)@), depth_left(old(ctx)@), 11int, Reference::NumberLiteral(0), 0int,
{
    let source = match ctx.get_param(fp) {
        Some(v) => v,
        None => return Err(from_error(fp, false)),
    };
    let sp = match source {
        Value::Phrase(p) => p,
        _ => return Err(from_error(fp, true)),
    };
    match &def.body {
        PhraseBody::Simple(t) => {
            let text = match eval_template(t, ctx, registry, transform_registry, lang) {
                Ok(x) => x,
                Err(e) => return Err(e),
            };
            if sp.variants.len() == 0 {
                let p = Phrase { text, variants: Vec::new(), tags: copy_tags(&sp.tags) };
                assert(p@.variants =~= seq![]);
                return Ok(p);
            }
            let keys = sorted(&keys_of(&sp.variants));
            let vs = match from_simple_all(def, fp, sp, t, &keys, ctx, registry, transform_registry, lang) {
                Ok(vs) => vs,
                Err(e) => return Err(e),
            };
            Ok(Phrase { text, variants: vs, tags: copy_tags(&sp.tags) })
        },
        PhraseBody::Variants(es) => eval_from_with_variants(def, fp, sp, es, ctx, registry, transform_registry, lang),
        PhraseBody::Match(bs) => eval_from_with_match(def, fp, sp, bs, ctx, registry, transform_registry, lang),
    }
}

/// Evaluates a `:from` definition whose body is a variant block.
fn eval_from_with_variants(def: &PhraseDefinition, fp: &str, sp: &Phrase, es: &Vec<VariantEntry>, ctx: &mut EvalContext<'_>, registry: &PhraseRegistry, transform_registry: &TransformRegistry, lang: &str) -> (r: Result<Phrase, EvalError>)
    ensures
        outcome_phrase(r) == eval_from_variants(registry@.defs, def@, fp@, sp@, entries_model(es@), old(ctx)@, lang@),
        r is Ok ==> final(ctx)@ == old(ctx)@,
        ctx_extends(old(ctx)@, final(ctx)@),
    decreases nest_left(old(ctx)@), depth_left(old(ctx)@), 10int, Reference::NumberLiteral(0), 0int,
{
    let ghost ev = entries_model(es@);
    let db = last_default_exec(es);
    let text = match db {
        Some(i) => {
            assert(ev[i as int].body == es@[i as int].body@);
            match eval_variant_entry_body(&es[i].body, ctx, registry, transform_registry, lang) {
                Ok(x) => x,
                Err(e) => return Err(e),
            }
        },
        None => if es.len() > 0 {
            assert(ev[0].body == es@[0].body@);
            match eval_variant_entry_body(&es[0].body, ctx, registry, transform_registry, lang) {
                Ok(x) => x,
                Err(e) => return Err(e),
            }
        } else {
            String::new()
        },
    };
    if sp.variants.len() == 0 {
        let p = Phrase { text, variants: Vec::new(), tags: copy_tags(&sp.tags) };
        assert(p@.variants =~= seq![]);
        return Ok(p);
    }
    let keys = sorted(&keys_of(&sp.variants));
    let vs = match from_variants_all(def, fp, sp, es, &keys, ctx, registry, transform_registry, lang) {
        Ok(vs) => vs,
        Err(e) => return Err(e),
    };
    Ok(Phrase { text, variants: vs, tags: copy_tags(&sp.tags) })
}

/// Evaluates a `:from` definition whose body is a `:match` block.
fn eval_from_with_match(def: &PhraseDefinition, fp: &str, sp: &Phrase, bs: &Vec<MatchBranch>, ctx: &mut EvalContext<'_>, registry: &PhraseRegistry, transform_registry: &TransformRegistry, lang: &str) -> (r: Result<Phrase, EvalError>)
    ensures
        outcome_phrase(r) == eval_from_match(registry@.defs, def@, fp@, sp@, branches_view(bs@), old(ctx)@, lang@),
        r is Ok ==> final(ctx)@ == old(ctx)@,
        ctx_extends(old(ctx)@, final(ctx)@),
    decreases nest_left(old(ctx)@), depth_left(old(ctx)@), 10int, Reference::NumberLiteral(0), 0int,
{
    let text = match eval_match_branches(bs, &def.match_params, ctx, registry, transform_registry, lang) {
        Ok(x) => x,
        Err(e) => return Err(e),
    };
    if sp.variants.len() == 0 {
        let p = Phrase { text, variants: Vec::new(), tags: copy_tags(&sp.tags) };
        assert(p@.variants =~= seq![]);
        return Ok(p);
    }
    let keys = sorted(&keys_of(&sp.variants));
    let vs = match from_match_all(def, fp, sp, bs, &keys, ctx, registry, transform_registry, lang) {
        Ok(vs) => vs,
        Err(e) => return Err(e),
    };
    Ok(Phrase { text, variants: vs, tags: copy_tags(&sp.tags) })
}

} // verus!
