//! Properties of the library as a whole: what a lookup gives back after a
//! store, what loading a language replaces, how names and parameters are
//! resolved, what `:from` definitions inherit, the order that keys are
//! sorted in, and the shape of formatted definition files.
use vstd::prelude::*;
use crate::ast::{
    PhraseDefinitionModel, ReferenceModel, SegmentModel, TransformModel, PhraseBodyModel,
    VariantEntryModel, MatchBranchModel, SelectorModel,
};
use crate::semantics::{
    reg_get, key_index, lex_lt, insert_sorted, sort_strings, resolve_ref, plural_name,
    apply_transforms_spec, transform_context_spec, env_insert, variant_keys, eval_from, from_simple_loop,
    from_variants_loop, from_match_loop, eval_segs, eval_entry_body, eval_match, entry_for_variant,
    variant_ctx, from_not_found, from_not_phrase, apply_selectors_spec, has_default_selector, plain_phrase,
    all_candidates, variants_of, insert_all, eval_def, number_candidates, match_candidates, compound_keys,
    extend_keys, join_key, exact_branch, first_branch, select_branch, any_key, key_passes, KeyTest,
};
use crate::context::{CtxModel, env_get, push_spec, pop_spec};
use crate::errors::{
    EvalErrorModel, LoadWarningModel, suggestions_spec, edit_distance, max_suggestion_distance, at_distance,
};
use crate::registry::{
    RegistryModel, insert_spec, name_hash, id_name, defs_insert, def_names, lemma_defs_insert,
};
use crate::locale::{
    LocaleModel, entry_of, without, registries_after_load, empty_registry, validate_spec,
    validate_names, lemma_without_absent, with_entry,
};
use crate::template_cache::{cache_after, cache_index, lemma_cache_index_push};
use crate::parser::template::{template_result, p_interpolation, p_transforms, cap_transform, is_ident_start};
use crate::parser::lex::{skip_ws, skip_wc, in_class, CharClass, run_end, lemma_run_end, at};
use crate::parser::file::{p_variant_entry, p_variant_keys_rest};
use crate::text::{is_ascii_upper, is_ascii_ws};
use crate::transforms::cap_spec;
use crate::parser::file::file_result;
use crate::plural::supported_languages;
use crate::transforms::{TransformKind, transform_lookup, canonical_name, transform_spec};
use crate::types::{
    ValueModel, PhraseModel, lookup, in_all, texts_for, shared_from, shared_variants, value_text, value_has_tag,
};
use crate::lint::{
    lint_all, lint_one, passthrough_lint, selector_lint, missing_from_lint, wrapper_lint, selector_lint_segs,
    selector_lint_entries,
};
use crate::ast::VariantEntryBodyModel;
use crate::formatter::{
    ChunkModel, format_definitions_spec, render_chunks, chunks_spec, trim_newlines,
    format_definition_spec, fix_from, trailing_from, nonempty_trims, joined_definition, expand_spec,
    break_spec, open_nl, eq_nl, eq_sp, slash2, definition_complete_spec,
};
use crate::text::{trim, trim_start, trim_end, lines, join, is_ws, starts_with, int_decimal};

verus! {

broadcast use vstd::seq_lib::group_to_multiset_ensures;

// ---------------------------------------------------------------------------
// The registry
// ---------------------------------------------------------------------------

/// A definition stored without an id collision is what a lookup by its name
/// gives afterwards; lookups of other names give what they gave before.
pub proof fn law_insert_then_get(m: RegistryModel, d: PhraseDefinitionModel, other: Seq<char>)
    requires
        insert_spec(m, d) is Ok,
    ensures
        reg_get(insert_spec(m, d)->Ok_0.defs, d.name) == Some(d),
        other != d.name ==> reg_get(insert_spec(m, d)->Ok_0.defs, other) == reg_get(m.defs, other),
{
    lemma_defs_insert(m.defs, d, d.name);
    lemma_defs_insert(m.defs, d, other);
}

/// After a definition is stored without an id collision, the id of its name
/// names it, so that a lookup by that id gives the definition.
pub proof fn law_insert_then_get_by_id(m: RegistryModel, d: PhraseDefinitionModel)
    requires
        insert_spec(m, d) is Ok,
    ensures
        id_name(insert_spec(m, d)->Ok_0.ids, name_hash(d.name)) == Some(d.name),
        reg_get(insert_spec(m, d)->Ok_0.defs, d.name) == Some(d),
{
    lemma_defs_insert(m.defs, d, d.name);
}

/// Storing a definition under a name whose id another name already holds is
/// refused, naming that other name.
pub proof fn law_insert_collision(m: RegistryModel, d: PhraseDefinitionModel)
    requires
        id_name(m.ids, name_hash(d.name)) matches Some(n) && n != d.name,
    ensures
        insert_spec(m, d) == Err::<RegistryModel, Seq<char>>(id_name(m.ids, name_hash(d.name))->Some_0),
{
}

// ---------------------------------------------------------------------------
// The locale
// ---------------------------------------------------------------------------

proof fn lemma_without_keeps_others<V>(s: Seq<(Seq<char>, V)>, k: Seq<char>, other: Seq<char>)
    requires
        other != k,
    ensures
        entry_of(without(s, k), other) == entry_of(s, other),
    decreases s.len(),
{
    if s.len() > 0 {
        let d = s.drop_last();
        lemma_without_keeps_others(d, k, other);
        lemma_key_index_range(d, other);
        lemma_key_index_range(s, other);
        let w = without(d, k);
        lemma_key_index_range(w, other);
        if s.last().0 != k {
            let wp = w.push(s.last());
            assert(wp.drop_last() =~= w);
            assert(wp.last() == s.last());
            lemma_key_index_range(wp, other);
            match key_index(w, other) {
                Some(i) => {
                    assert(key_index(wp, other) == Some(i));
                    assert(wp[i] == w[i]);
                    assert(key_index(d, other) is Some);
                    let j = key_index(d, other)->Some_0;
                    assert(key_index(s, other) == Some(j));
                    assert(s[j] == d[j]);
                },
                None => {
                    assert(key_index(d, other) is None);
                },
            }
        } else {
            match key_index(d, other) {
                Some(j) => {
                    assert(key_index(s, other) == Some(j));
                    assert(s[j] == d[j]);
                },
                None => {
                    assert(key_index(s, other) is None);
                },
            }
        }
    }
}

proof fn lemma_key_index_range<V>(s: Seq<(Seq<char>, V)>, k: Seq<char>)
    ensures
        key_index(s, k) matches Some(i) ==> 0 <= i < s.len() && s[i].0 == k,
    decreases s.len(),
{
    if s.len() > 0 {
        lemma_key_index_range(s.drop_last(), k);
    }
}

proof fn lemma_key_index_update<V>(s: Seq<(Seq<char>, V)>, i: int, v: V, x: Seq<char>)
    requires
        0 <= i < s.len(),
    ensures
        key_index(s.update(i, (s[i].0, v)), x) == key_index(s, x),
    decreases s.len(),
{
    let u = s.update(i, (s[i].0, v));
    if i < s.len() - 1 {
        assert(u.drop_last() =~= s.drop_last().update(i, (s.drop_last()[i].0, v)));
        lemma_key_index_update(s.drop_last(), i, v, x);
        assert(u.last() == s.last());
    } else {
        assert(u.drop_last() =~= s.drop_last());
    }
}

/// Loading a language from a file keeps that file's path for reloading,
/// and loading it from a string forgets the path; the paths kept for other
/// languages stay as they were.
pub proof fn law_reload_paths(paths: Seq<(Seq<char>, Seq<char>)>, language: Seq<char>, path: Seq<char>, other: Seq<char>)
    requires
        other != language,
    ensures
        entry_of(with_entry(paths, language, path), language) == Some(path),
        entry_of(with_entry(paths, language, path), other) == entry_of(paths, other),
        entry_of(without(paths, language), language) is None,
        entry_of(without(paths, language), other) == entry_of(paths, other),
{
    lemma_key_index_range(paths, language);
    lemma_key_index_range(paths, other);
    match key_index(paths, language) {
        Some(i) => {
            lemma_key_index_update(paths, i, path, language);
            lemma_key_index_update(paths, i, path, other);
            let u = paths.update(i, (paths[i].0, path));
            assert(with_entry(paths, language, path) == u);
            match key_index(paths, other) {
                Some(j) => {
                    assert(j != i);
                    assert(u[j] == paths[j]);
                },
                None => {},
            }
        },
        None => {
            let u = paths.push((language, path));
            assert(u.drop_last() =~= paths);
            match key_index(paths, other) {
                Some(j) => {
                    assert(u[j] == paths[j]);
                },
                None => {},
            }
        },
    }
    lemma_without_absent(paths, language);
    lemma_without_keeps_others(paths, language, other);
}

/// Loading translations for a language replaces what it held: where the
/// text parses, the language's registry holds exactly the text's
/// definitions (up to the first id collision), whatever was loaded before,
/// and where it does not parse the language holds nothing; the registries of
/// other languages are what they were.
pub proof fn law_load_replaces(rs: Seq<(Seq<char>, RegistryModel)>, language: Seq<char>, content: Seq<char>, other: Seq<char>)
    requires
        other != language,
    ensures
        entry_of(registries_after_load(without(rs, language), language, content), language) == match file_result(content) {
            Ok(ds) => Some(crate::registry::insert_many(empty_registry(), ds).0),
            Err(_) => None,
        },
        entry_of(registries_after_load(without(rs, language), language, content), other) == entry_of(rs, other),
{
    let w = without(rs, language);
    lemma_without_absent(rs, language);
    lemma_without_keeps_others(rs, language, other);
    match file_result(content) {
        Ok(ds) => {
            let e = (language, crate::registry::insert_many(empty_registry(), ds).0);
            assert(w.push(e).drop_last() =~= w);
            lemma_key_index_range(w, other);
        },
        Err(_) => {},
    }
}

// ---------------------------------------------------------------------------
// Evaluation
// ---------------------------------------------------------------------------

/// A parameter is looked up among the context's parameters only, whatever
/// the registry holds; a bare name is looked up in the registry only, so a
/// name that the registry lacks is not found even where a parameter has it.
pub proof fn law_reference_namespaces(reg1: Seq<PhraseDefinitionModel>, reg2: Seq<PhraseDefinitionModel>, n: Seq<char>, c: CtxModel, lang: Seq<char>)
    ensures
        resolve_ref(reg1, ReferenceModel::Parameter(n), c, lang) == resolve_ref(reg2, ReferenceModel::Parameter(n), c, lang),
        resolve_ref(reg1, ReferenceModel::Parameter(n), c, lang) == match env_get(c.params, n) {
            Some(v) => Ok(v),
            None => Err(EvalErrorModel::UnknownParameter(n)),
        },
        reg_get(reg1, n) is None ==> resolve_ref(reg1, ReferenceModel::Identifier(n), c, lang) == Err::<
            crate::types::ValueModel,
            EvalErrorModel,
        >(EvalErrorModel::PhraseNotFound(n)),
{
}

/// Popping a call that was pushed gives back the context from before.
pub proof fn law_push_then_pop(c: CtxModel, name: Seq<char>)
    requires
        push_spec(c, name) is Ok,
    ensures
        pop_spec(push_spec(c, name)->Ok_0) == c,
{
    assert(c.stack.push(name).drop_last() =~= c.stack);
}

/// A name already on the call stack cannot be pushed again: the cycle is
/// reported with the chain of names that closes it.
pub proof fn law_cycle_detected(c: CtxModel, name: Seq<char>)
    requires
        c.depth < c.max_depth,
        c.stack.contains(name),
    ensures
        push_spec(c, name) == Err::<CtxModel, EvalErrorModel>(EvalErrorModel::CyclicReference(c.stack.push(name))),
{
}

/// Looking a template up a second time leaves the cache as the first lookup
/// left it.
pub proof fn law_cache_fetch_idempotent(cache: Seq<(Seq<char>, Seq<SegmentModel>)>, s: Seq<char>)
    ensures
        cache_after(cache_after(cache, s), s) == cache_after(cache, s),
{
    match (template_result(s), cache_index(cache, s)) {
        (Ok(t), None) => {
            lemma_cache_index_push(cache, (s, t), s);
        },
        _ => {},
    }
}

/// Language codes without plural rules of their own follow the English
/// rules.
pub proof fn law_plural_fallback(lang: Seq<char>, n: i64)
    requires
        !supported_languages().contains(lang),
    ensures
        plural_name(lang, n) == plural_name("en"@, n),
{
    assert(supported_languages().contains("en"@)) by {
        assert(supported_languages()[4] == "en"@);
    }
}

/// Transforms chain right to left: under `@a @b`, the transforms written
/// last are applied first, to the value itself, and those before them to the
/// text that comes out.
pub proof fn law_transforms_compose(v: ValueModel, first: Seq<TransformModel>, last: Seq<TransformModel>, env: Seq<(Seq<char>, ValueModel)>, lang: Seq<char>)
    requires
        last.len() > 0,
        apply_transforms_spec(v, last, env, lang) is Ok,
    ensures
        apply_transforms_spec(v, first + last, env, lang) == apply_transforms_spec(
            ValueModel::Str(apply_transforms_spec(v, last, env, lang)->Ok_0),
            first,
            env,
            lang,
        ),
    decreases last.len(),
{
    let t = last.last();
    assert((first + last).drop_last() =~= first + last.drop_last());
    assert((first + last).last() == t);
    let k = transform_lookup(t.name, lang)->Some_0;
    let cv = transform_context_spec(t.context, env)->Ok_0;
    let s = transform_spec(k, v, cv, lang)->Ok_0;
    if last.len() == 1 {
        assert(last.drop_last() =~= Seq::<TransformModel>::empty());
        assert(first + last.drop_last() =~= first);
    } else {
        law_transforms_compose(ValueModel::Str(s), first, last.drop_last(), env, lang);
    }
}

/// The universal transforms are there in every language.
pub proof fn law_universal_transforms(lang: Seq<char>)
    ensures
        transform_lookup("cap"@, lang) == Some(TransformKind::Cap),
        transform_lookup("upper"@, lang) == Some(TransformKind::Upper),
        transform_lookup("lower"@, lang) == Some(TransformKind::Lower),
{
    reveal_strlit("a");
    reveal_strlit("an");
    reveal_strlit("cap");
    reveal_strlit("das");
    reveal_strlit("die");
    reveal_strlit("eine");
    reveal_strlit("el");
    reveal_strlit("ena");
    reveal_strlit("es");
    reveal_strlit("fr");
    reveal_strlit("het");
    reveal_strlit("i");
    reveal_strlit("it");
    reveal_strlit("la");
    reveal_strlit("lo");
    reveal_strlit("lower");
    reveal_strlit("mia");
    reveal_strlit("pt");
    reveal_strlit("to");
    reveal_strlit("uma");
    reveal_strlit("una");
    reveal_strlit("une");
    reveal_strlit("uno");
    reveal_strlit("upper");
    assert("cap"@.len() != "an"@.len());
    assert("cap"@[0] != "die"@[0]);
    assert("cap"@[0] != "das"@[0]);
    assert("cap"@.len() != "eine"@.len());
    assert("cap"@[0] != "het"@[0]);
    assert("cap"@.len() != "la"@.len());
    assert("cap"@[0] != "una"@[0]);
    assert("cap"@[0] != "uma"@[0]);
    assert("cap"@[0] != "une"@[0]);
    assert("cap"@.len() != "lo"@.len());
    assert("cap"@[0] != "uno"@[0]);
    assert("cap"@.len() != "i"@.len());
    assert("cap"@.len() != "to"@.len());
    assert("cap"@[0] != "mia"@[0]);
    assert("cap"@[0] != "ena"@[0]);
    assert("cap"@.len() != "a"@.len());
    assert("upper"@.len() != "an"@.len());
    assert("upper"@.len() != "die"@.len());
    assert("upper"@.len() != "das"@.len());
    assert("upper"@.len() != "eine"@.len());
    assert("upper"@.len() != "het"@.len());
    assert("upper"@.len() != "la"@.len());
    assert("upper"@.len() != "una"@.len());
    assert("upper"@.len() != "uma"@.len());
    assert("upper"@.len() != "une"@.len());
    assert("upper"@.len() != "lo"@.len());
    assert("upper"@.len() != "uno"@.len());
    assert("upper"@.len() != "i"@.len());
    assert("upper"@.len() != "to"@.len());
    assert("upper"@.len() != "mia"@.len());
    assert("upper"@.len() != "ena"@.len());
    assert("upper"@.len() != "a"@.len());
    assert("lower"@[0] != "upper"@[0]);
    assert("lower"@.len() != "cap"@.len());
    assert("upper"@.len() != "cap"@.len());
    assert("lower"@.len() != "an"@.len());
    assert("lower"@.len() != "die"@.len());
    assert("lower"@.len() != "das"@.len());
    assert("lower"@.len() != "eine"@.len());
    assert("lower"@.len() != "het"@.len());
    assert("lower"@.len() != "la"@.len());
    assert("lower"@.len() != "una"@.len());
    assert("lower"@.len() != "uma"@.len());
    assert("lower"@.len() != "une"@.len());
    assert("lower"@.len() != "lo"@.len());
    assert("lower"@.len() != "uno"@.len());
    assert("lower"@.len() != "i"@.len());
    assert("lower"@.len() != "to"@.len());
    assert("lower"@.len() != "mia"@.len());
    assert("lower"@.len() != "ena"@.len());
    assert("lower"@.len() != "a"@.len());
}

/// The German aliases `@die` and `@das` are `@der`, and `@eine` is `@ein`,
/// in every language; `@an` is `@a` in every language but Portuguese, where
/// `@a` is itself the alias of `@o`.
pub proof fn law_transform_aliases(lang: Seq<char>)
    ensures
        transform_lookup("die"@, lang) == transform_lookup("der"@, lang),
        transform_lookup("das"@, lang) == transform_lookup("der"@, lang),
        transform_lookup("eine"@, lang) == transform_lookup("ein"@, lang),
        lang != "pt"@ ==> transform_lookup("an"@, lang) == transform_lookup("a"@, lang),
{
    reveal_strlit("a");
    reveal_strlit("an");
    reveal_strlit("das");
    reveal_strlit("der");
    reveal_strlit("die");
    reveal_strlit("ein");
    reveal_strlit("eine");
    reveal_strlit("el");
    reveal_strlit("ena");
    reveal_strlit("es");
    reveal_strlit("fr");
    reveal_strlit("het");
    reveal_strlit("i");
    reveal_strlit("it");
    reveal_strlit("la");
    reveal_strlit("lo");
    reveal_strlit("mia");
    reveal_strlit("pt");
    reveal_strlit("to");
    reveal_strlit("uma");
    reveal_strlit("una");
    reveal_strlit("une");
    reveal_strlit("uno");
    assert("der"@.len() != "an"@.len());
    assert("der"@[1] != "die"@[1]);
    assert("der"@[1] != "das"@[1]);
    assert("der"@.len() != "eine"@.len());
    assert("der"@[0] != "het"@[0]);
    assert("der"@.len() != "la"@.len());
    assert("der"@[0] != "una"@[0]);
    assert("der"@[0] != "uma"@[0]);
    assert("der"@[0] != "une"@[0]);
    assert("der"@.len() != "lo"@.len());
    assert("der"@[0] != "uno"@[0]);
    assert("der"@.len() != "i"@.len());
    assert("der"@.len() != "to"@.len());
    assert("der"@[0] != "mia"@[0]);
    assert("der"@[0] != "ena"@[0]);
    assert("der"@.len() != "a"@.len());
    assert("ein"@.len() != "an"@.len());
    assert("ein"@[0] != "die"@[0]);
    assert("ein"@[0] != "das"@[0]);
    assert("ein"@.len() != "eine"@.len());
    assert("ein"@[0] != "het"@[0]);
    assert("ein"@.len() != "la"@.len());
    assert("ein"@[0] != "una"@[0]);
    assert("ein"@[0] != "uma"@[0]);
    assert("ein"@[0] != "une"@[0]);
    assert("ein"@.len() != "lo"@.len());
    assert("ein"@[0] != "uno"@[0]);
    assert("ein"@.len() != "i"@.len());
    assert("ein"@.len() != "to"@.len());
    assert("ein"@[0] != "mia"@[0]);
    assert("ein"@[1] != "ena"@[1]);
    assert("ein"@.len() != "a"@.len());
    assert("die"@.len() != "an"@.len());
    assert("das"@.len() != "an"@.len());
    assert("das"@[1] != "die"@[1]);
    assert("eine"@.len() != "an"@.len());
    assert("eine"@.len() != "die"@.len());
    assert("eine"@.len() != "das"@.len());
    assert("a"@.len() != "an"@.len());
    assert("a"@.len() != "die"@.len());
    assert("a"@.len() != "das"@.len());
    assert("a"@.len() != "eine"@.len());
    assert("a"@.len() != "het"@.len());
    assert("a"@.len() != "la"@.len());
    assert("a"@.len() != "una"@.len());
    assert("a"@.len() != "uma"@.len());
    assert("a"@.len() != "une"@.len());
    assert("a"@.len() != "lo"@.len());
    assert("a"@.len() != "uno"@.len());
    assert("a"@[0] != "i"@[0]);
    assert("a"@.len() != "to"@.len());
    assert("a"@.len() != "mia"@.len());
    assert("a"@.len() != "ena"@.len());
    assert(canonical_name("die"@, lang) == "der"@);
    assert(canonical_name("das"@, lang) == "der"@);
    assert(canonical_name("der"@, lang) == "der"@);
    assert(canonical_name("eine"@, lang) == "ein"@);
    assert(canonical_name("ein"@, lang) == "ein"@);
    assert(canonical_name("an"@, lang) == "a"@);
}

// ---------------------------------------------------------------------------
// Sorting
// ---------------------------------------------------------------------------

/// Strings in ascending code-point order.
pub open spec fn ascending(s: Seq<Seq<char>>) -> bool {
    forall|i: int, j: int| 0 <= i < j < s.len() ==> !lex_lt(#[trigger] s[j], #[trigger] s[i])
}

proof fn lemma_lex_irreflexive(a: Seq<char>)
    ensures
        !lex_lt(a, a),
    decreases a.len(),
{
    if a.len() > 0 {
        lemma_lex_irreflexive(a.drop_first());
    }
}

proof fn lemma_lex_transitive(a: Seq<char>, b: Seq<char>, c: Seq<char>)
    requires
        lex_lt(a, b),
        lex_lt(b, c),
    ensures
        lex_lt(a, c),
    decreases a.len(),
{
    if a.len() > 0 && b.len() > 0 && c.len() > 0 && a[0] == b[0] && b[0] == c[0] {
        lemma_lex_transitive(a.drop_first(), b.drop_first(), c.drop_first());
    }
}

proof fn lemma_lex_total(a: Seq<char>, b: Seq<char>)
    requires
        a != b,
    ensures
        lex_lt(a, b) || lex_lt(b, a),
    decreases a.len(),
{
    if a.len() == 0 {
        if b.len() == 0 {
            assert(a =~= b);
        }
    } else if b.len() == 0 {
    } else if a[0] != b[0] {
        let x = a[0];
        let y = b[0];
        vstd::utf8::char_u32_cast(x, x as u32);
        vstd::utf8::char_u32_cast(y, y as u32);
    } else {
        if a.drop_first() =~= b.drop_first() {
            assert(a =~= seq![a[0]] + a.drop_first());
            assert(b =~= seq![b[0]] + b.drop_first());
            assert(a =~= b);
        }
        lemma_lex_total(a.drop_first(), b.drop_first());
    }
}

proof fn lemma_insert_sorted(s: Seq<Seq<char>>, x: Seq<char>)
    requires
        ascending(s),
    ensures
        ascending(insert_sorted(s, x)),
        insert_sorted(s, x).to_multiset() == s.to_multiset().insert(x),
    decreases s.len(),
{
    broadcast use vstd::multiset::group_multiset_axioms;

    let r = insert_sorted(s, x);
    if s.len() == 0 {
        assert(r =~= Seq::<Seq<char>>::empty().push(x));
        assert(s =~= Seq::<Seq<char>>::empty());
    } else if lex_lt(x, s[0]) {
        assert(r =~= s.insert(0, x));
        assert forall|i: int, j: int| 0 <= i < j < r.len() implies !lex_lt(#[trigger] r[j], #[trigger] r[i]) by {
            if i == 0 {
                if lex_lt(r[j], x) {
                    lemma_lex_transitive(r[j], x, s[0]);
                    if j == 1 {
                        lemma_lex_irreflexive(s[0]);
                    } else {
                        assert(r[j] == s[j - 1]);
                        assert(!lex_lt(s[j - 1], s[0]));
                    }
                }
            } else {
                assert(r[i] == s[i - 1] && r[j] == s[j - 1]);
            }
        }
    } else {
        let t = s.drop_first();
        assert(ascending(t)) by {
            assert forall|i: int, j: int| 0 <= i < j < t.len() implies !lex_lt(#[trigger] t[j], #[trigger] t[i]) by {
                assert(t[i] == s[i + 1] && t[j] == s[j + 1]);
            }
        }
        lemma_insert_sorted(t, x);
        let it = insert_sorted(t, x);
        assert(r =~= it.insert(0, s[0]));
        assert(s =~= t.insert(0, s[0]));
        assert(r.to_multiset() =~= s.to_multiset().insert(x));
        assert forall|i: int, j: int| 0 <= i < j < r.len() implies !lex_lt(#[trigger] r[j], #[trigger] r[i]) by {
            if i == 0 {
                let y = it[j - 1];
                assert(r[j] == y);
                assert(it.contains(y));
                assert(it.to_multiset().count(y) > 0);
                if y != x {
                    assert(t.to_multiset().count(y) > 0);
                    assert(t.contains(y));
                    let k = choose|k: int| 0 <= k < t.len() && t[k] == y;
                    assert(s[k + 1] == y);
                    assert(!lex_lt(s[k + 1], s[0]));
                }
            } else {
                assert(r[i] == it[i - 1] && r[j] == it[j - 1]);
            }
        }
    }
}

proof fn lemma_sort_strings(s: Seq<Seq<char>>)
    ensures
        ascending(sort_strings(s)),
        sort_strings(s).to_multiset() == s.to_multiset(),
    decreases s.len(),
{
    if s.len() == 0 {
        assert(sort_strings(s) =~= s);
    } else {
        lemma_sort_strings(s.drop_last());
        lemma_insert_sorted(sort_strings(s.drop_last()), s.last());
        assert(s =~= s.drop_last().push(s.last()));
    }
}

/// Sorting strings puts them in ascending code-point (and so UTF-8 byte)
/// order and keeps each of them as often as it occurs.
pub proof fn law_sort_strings(s: Seq<Seq<char>>)
    ensures
        ascending(sort_strings(s)),
        sort_strings(s).to_multiset() == s.to_multiset(),
        sort_strings(s).len() == s.len(),
{
    lemma_sort_strings(s);
    assert(sort_strings(s).to_multiset().len() == s.to_multiset().len());
}

/// The code-point order of strings is a strict total order.
pub proof fn law_lex_order(a: Seq<char>, b: Seq<char>, c: Seq<char>)
    ensures
        !lex_lt(a, a),
        lex_lt(a, b) && lex_lt(b, c) ==> lex_lt(a, c),
        a != b ==> lex_lt(a, b) || lex_lt(b, a),
{
    lemma_lex_irreflexive(a);
    if lex_lt(a, b) && lex_lt(b, c) {
        lemma_lex_transitive(a, b, c);
    }
    if a != b {
        lemma_lex_total(a, b);
    }
}

// ---------------------------------------------------------------------------
// Validation
// ---------------------------------------------------------------------------

proof fn lemma_def_names(defs: Seq<PhraseDefinitionModel>)
    ensures
        def_names(defs).len() == defs.len(),
        forall|i: int| 0 <= i < defs.len() ==> #[trigger] def_names(defs)[i] == defs[i].name,
    decreases defs.len(),
{
    if defs.len() > 0 {
        lemma_def_names(defs.drop_last());
    }
}

proof fn lemma_reg_get_found(defs: Seq<PhraseDefinitionModel>, i: int)
    requires
        0 <= i < defs.len(),
    ensures
        reg_get(defs, defs[i].name) is Some,
    decreases i,
{
    if i > 0 && defs[0].name != defs[i].name {
        lemma_reg_get_found(defs.drop_first(), i - 1);
    }
}

proof fn lemma_validate_self(defs: Seq<PhraseDefinitionModel>, names: Seq<Seq<char>>, target: Seq<char>)
    requires
        forall|i: int| 0 <= i < names.len() ==> reg_get(defs, #[trigger] names[i]) is Some,
    ensures
        validate_names(defs, defs, names, target) == Seq::<LoadWarningModel>::empty(),
    decreases names.len(),
{
    if names.len() > 0 {
        lemma_validate_self(defs, names.drop_last(), target);
        assert(reg_get(defs, names[names.len() - 1]) is Some);
    }
}

/// Checking a language against itself gives no warnings.
pub proof fn law_validate_self(m: LocaleModel, language: Seq<char>)
    ensures
        validate_spec(m, language, language) == Seq::<LoadWarningModel>::empty(),
{
    match entry_of(m.registries, language) {
        Some(r) => {
            let names = sort_strings(def_names(r.defs));
            lemma_sort_strings(def_names(r.defs));
            lemma_def_names(r.defs);
            assert forall|i: int| 0 <= i < names.len() implies reg_get(r.defs, #[trigger] names[i]) is Some by {
                let n = names[i];
                assert(names.contains(n));
                assert(names.to_multiset().count(n) > 0);
                assert(def_names(r.defs).to_multiset().count(n) > 0);
                assert(def_names(r.defs).contains(n));
                let k = choose|k: int| 0 <= k < def_names(r.defs).len() && def_names(r.defs)[k] == n;
                lemma_reg_get_found(r.defs, k);
            }
            lemma_validate_self(r.defs, names, language);
        },
        None => {},
    }
}

/// Whether `w` is a warning that checking `target` against a source may
/// give: a target phrase the source lacks, or a phrase whose parameter
/// counts differ between the two.
pub open spec fn validation_warning(w: LoadWarningModel, sdefs: Seq<PhraseDefinitionModel>, tdefs: Seq<PhraseDefinitionModel>, target: Seq<char>) -> bool {
    match w {
        LoadWarningModel::UnknownPhrase { name, language } => {
            &&& language == target
            &&& reg_get(sdefs, name) is None
            &&& reg_get(tdefs, name) is Some
        },
        LoadWarningModel::ParameterCountMismatch { name, language, source_count, translation_count } => {
            &&& language == target
            &&& reg_get(sdefs, name) is Some
            &&& reg_get(tdefs, name) is Some
            &&& source_count == reg_get(sdefs, name)->0.parameters.len()
            &&& translation_count == reg_get(tdefs, name)->0.parameters.len()
            &&& source_count != translation_count
        },
        _ => false,
    }
}

proof fn lemma_validate_names(sdefs: Seq<PhraseDefinitionModel>, tdefs: Seq<PhraseDefinitionModel>, names: Seq<Seq<char>>, target: Seq<char>)
    requires
        forall|i: int| 0 <= i < names.len() ==> reg_get(tdefs, #[trigger] names[i]) is Some,
    ensures
        forall|k: int| 0 <= k < validate_names(sdefs, tdefs, names, target).len() ==> validation_warning(
            #[trigger] validate_names(sdefs, tdefs, names, target)[k],
            sdefs,
            tdefs,
            target,
        ),
        forall|i: int| 0 <= i < names.len() && reg_get(sdefs, #[trigger] names[i]) is None ==> validate_names(
            sdefs,
            tdefs,
            names,
            target,
        ).contains(LoadWarningModel::UnknownPhrase { name: names[i], language: target }),
    decreases names.len(),
{
    if names.len() > 0 {
        let p = names.drop_last();
        assert forall|i: int| 0 <= i < p.len() implies reg_get(tdefs, #[trigger] p[i]) is Some by {
            assert(p[i] == names[i]);
        }
        lemma_validate_names(sdefs, tdefs, p, target);
        let prev = validate_names(sdefs, tdefs, p, target);
        let w = validate_names(sdefs, tdefs, names, target);
        let n = names.last();
        assert(reg_get(tdefs, names[names.len() - 1]) is Some);
        assert forall|k: int| 0 <= k < w.len() implies validation_warning(#[trigger] w[k], sdefs, tdefs, target) by {
            if k < prev.len() {
                assert(w[k] == prev[k]);
            }
        }
        assert forall|i: int| 0 <= i < names.len() && reg_get(sdefs, #[trigger] names[i]) is None implies w.contains(
            LoadWarningModel::UnknownPhrase { name: names[i], language: target },
        ) by {
            if i < names.len() - 1 {
                assert(p[i] == names[i]);
                let x = LoadWarningModel::UnknownPhrase { name: names[i], language: target };
                assert(prev.contains(x));
                let j = choose|j: int| 0 <= j < prev.len() && prev[j] == x;
                assert(w[j] == prev[j]);
            } else {
                assert(w[w.len() - 1] == LoadWarningModel::UnknownPhrase { name: n, language: target });
            }
        }
    }
}

/// Checking translations gives no warnings where either language is not
/// loaded. Otherwise each warning is about a phrase of the target language:
/// one the source lacks, or one whose parameter count differs from the
/// source's; and each target phrase that the source lacks is reported.
pub proof fn law_validate_warnings(m: LocaleModel, source: Seq<char>, target: Seq<char>)
    ensures
        (entry_of(m.registries, source) is None || entry_of(m.registries, target) is None)
            ==> validate_spec(m, source, target) == Seq::<LoadWarningModel>::empty(),
        (entry_of(m.registries, source) is Some && entry_of(m.registries, target) is Some) ==> {
            let s = entry_of(m.registries, source)->0;
            let t = entry_of(m.registries, target)->0;
            &&& forall|k: int| 0 <= k < validate_spec(m, source, target).len() ==> validation_warning(
                #[trigger] validate_spec(m, source, target)[k],
                s.defs,
                t.defs,
                target,
            )
            &&& forall|n: Seq<char>| #[trigger] def_names(t.defs).contains(n) && reg_get(s.defs, n) is None
                ==> validate_spec(m, source, target).contains(
                LoadWarningModel::UnknownPhrase { name: n, language: target },
            )
        },
{
    if entry_of(m.registries, source) is Some && entry_of(m.registries, target) is Some {
        let s = entry_of(m.registries, source)->0;
        let t = entry_of(m.registries, target)->0;
        let names = sort_strings(def_names(t.defs));
        lemma_sort_strings(def_names(t.defs));
        lemma_def_names(t.defs);
        assert forall|i: int| 0 <= i < names.len() implies reg_get(t.defs, #[trigger] names[i]) is Some by {
            let n = names[i];
            assert(names.contains(n));
            assert(names.to_multiset().count(n) > 0);
            assert(def_names(t.defs).to_multiset().count(n) > 0);
            assert(def_names(t.defs).contains(n));
            let k = choose|k: int| 0 <= k < def_names(t.defs).len() && def_names(t.defs)[k] == n;
            lemma_reg_get_found(t.defs, k);
        }
        lemma_validate_names(s.defs, t.defs, names, target);
        assert forall|n: Seq<char>| #[trigger] def_names(t.defs).contains(n) && reg_get(s.defs, n) is None
            implies validate_spec(m, source, target).contains(
            LoadWarningModel::UnknownPhrase { name: n, language: target },
        ) by {
            assert(def_names(t.defs).to_multiset().count(n) > 0);
            assert(names.to_multiset().count(n) > 0);
            assert(names.contains(n));
            let i = choose|i: int| 0 <= i < names.len() && names[i] == n;
            assert(reg_get(s.defs, names[i]) is None);
        }
    }
}

// ---------------------------------------------------------------------------
// Formatting definition files
// ---------------------------------------------------------------------------

/// Whether `s` holds a character other than a newline.
pub open spec fn has_text(s: Seq<char>) -> bool {
    exists|i: int| 0 <= i < s.len() && s[i] != '\n'
}

proof fn lemma_has_text_concat(a: Seq<char>, b: Seq<char>)
    ensures
        has_text(a + b) <==> (has_text(a) || has_text(b)),
{
    let ab = a + b;
    if has_text(a) {
        let i = choose|i: int| 0 <= i < a.len() && a[i] != '\n';
        assert(ab[i] == a[i]);
    }
    if has_text(b) {
        let i = choose|i: int| 0 <= i < b.len() && b[i] != '\n';
        assert(ab[a.len() + i] == b[i]);
    }
    if has_text(ab) {
        let i = choose|i: int| 0 <= i < ab.len() && ab[i] != '\n';
        if i < a.len() {
            assert(a[i] == ab[i]);
        } else {
            assert(b[i - a.len()] == ab[i]);
        }
    }
}

proof fn lemma_trim_newlines(s: Seq<char>)
    ensures
        trim_newlines(s).len() <= s.len(),
        forall|k: int| 0 <= k < trim_newlines(s).len() ==> trim_newlines(s)[k] == s[k],
        trim_newlines(s).len() > 0 ==> trim_newlines(s).last() != '\n',
        trim_newlines(s).len() == 0 <==> !has_text(s),
        forall|k: int| trim_newlines(s).len() <= k < s.len() ==> s[k] == '\n',
    decreases s.len(),
{
    if s.len() > 0 && s.last() == '\n' {
        lemma_trim_newlines(s.drop_last());
        lemma_has_text_concat(s.drop_last(), seq!['\n']);
        assert(s.drop_last() + seq!['\n'] =~= s);
        assert(!has_text(seq!['\n']));
    } else if s.len() > 0 {
        assert(s[s.len() - 1] != '\n');
    }
}

proof fn lemma_trim_end_prefix(s: Seq<char>)
    ensures
        trim_end(s).len() <= s.len(),
        forall|k: int| 0 <= k < trim_end(s).len() ==> trim_end(s)[k] == s[k],
    decreases s.len(),
{
    if s.len() > 0 && is_ws(s.last()) {
        lemma_trim_end_prefix(s.drop_last());
        assert forall|k: int| 0 <= k < trim_end(s).len() implies trim_end(s)[k] == s[k] by {
            assert(trim_end(s)[k] == s.drop_last()[k]);
        }
    }
}

proof fn lemma_trim_start_first(s: Seq<char>)
    ensures
        trim_start(s).len() > 0 ==> !is_ws(trim_start(s)[0]),
    decreases s.len(),
{
    if s.len() > 0 && is_ws(s[0]) {
        lemma_trim_start_first(s.drop_first());
    }
}

proof fn lemma_trim_first(s: Seq<char>)
    ensures
        trim(s).len() > 0 ==> !is_ws(trim(s)[0]),
{
    lemma_trim_start_first(s);
    lemma_trim_end_prefix(trim_start(s));
}

proof fn lemma_nonempty_trims(ls: Seq<Seq<char>>)
    ensures
        forall|i: int| 0 <= i < nonempty_trims(ls).len() ==> (#[trigger] nonempty_trims(ls)[i]).len() > 0
            && !is_ws(nonempty_trims(ls)[i][0]),
        (exists|j: int| 0 <= j < ls.len() && (#[trigger] trim(ls[j])).len() > 0) ==> nonempty_trims(ls).len() > 0,
    decreases ls.len(),
{
    if ls.len() > 0 {
        lemma_nonempty_trims(ls.drop_last());
        lemma_trim_first(ls.last());
        if exists|j: int| 0 <= j < ls.len() && (#[trigger] trim(ls[j])).len() > 0 {
            let j = choose|j: int| 0 <= j < ls.len() && (#[trigger] trim(ls[j])).len() > 0;
            if j < ls.len() - 1 {
                assert(trim(ls.drop_last()[j]).len() > 0);
            }
        }
    }
}

proof fn lemma_join_first(ps: Seq<Seq<char>>, sep: Seq<char>)
    requires
        ps.len() > 0,
        ps[0].len() > 0,
    ensures
        join(ps, sep).len() > 0,
        join(ps, sep)[0] == ps[0][0],
    decreases ps.len(),
{
    if ps.len() > 1 {
        lemma_join_first(ps.drop_last(), sep);
    }
}

proof fn lemma_fix_first(s: Seq<char>)
    requires
        s.len() > 0,
    ensures
        fix_from(s, 0, false).len() > 0,
        fix_from(s, 0, false)[0] == s[0],
{
}

proof fn lemma_trailing_first(s: Seq<char>)
    requires
        s.len() > 0,
    ensures
        trailing_from(s, 0, false).len() > 0,
        trailing_from(s, 0, false)[0] == s[0] || trailing_from(s, 0, false)[0] == ' ',
{
}

/// The text of a definition with a non-blank line holds a character other
/// than a newline.
proof fn lemma_definition_text(ls: Seq<Seq<char>>, indent: Seq<char>, max_width: nat)
    requires
        exists|j: int| 0 <= j < ls.len() && (#[trigger] trim(ls[j])).len() > 0,
    ensures
        has_text(format_definition_spec(ls, indent, max_width)),
{
    lemma_nonempty_trims(ls);
    let ps = nonempty_trims(ls);
    assert(ps[0].len() > 0 && !is_ws(ps[0][0]));
    lemma_join_first(ps, seq![' ']);
    let joined = joined_definition(ls);
    let fixed = fix_from(joined, 0, false);
    lemma_fix_first(joined);
    lemma_trailing_first(fixed);
    let single = indent + trailing_from(fixed, 0, false);
    assert(single[indent.len() as int] != '\n');
    let r = format_definition_spec(ls, indent, max_width);
    if r == single {
    } else if expand_spec(fixed, indent, max_width) is Some {
        let e = expand_spec(fixed, indent, max_width)->0;
        assert(r == e);
        let (prefix, content, suffix) = crate::formatter::outermost_block(fixed)->0;
        assert(e[(indent.len() + prefix.len() + 1) as int] == open_nl()[1]);
    } else {
        assert(break_spec(fixed, indent, max_width) is Some);
        let b = break_spec(fixed, indent, max_width)->0;
        assert(r == b);
        let eq = crate::formatter::first_eq(fixed, 0, false)->0;
        let lhs = trim_end(fixed.take(eq));
        assert(b[(indent.len() + lhs.len() + 1) as int] == '=') by {
            assert(eq_nl()[1] == '=');
            assert(eq_sp()[1] == '=');
        }
    }
}

proof fn lemma_render_one(c: ChunkModel, indent: Seq<char>, max_width: nat)
    ensures
        render_chunks(seq![c], indent, max_width) == match c {
            ChunkModel::Blank => seq!['\n'],
            ChunkModel::Comment(t) => t + seq!['\n'],
            ChunkModel::Definition(ls) => format_definition_spec(ls, indent, max_width) + seq!['\n'],
        },
{
    let e = Seq::<ChunkModel>::empty();
    assert(seq![c].drop_last() =~= e);
    assert(seq![c].last() == c);
    assert(render_chunks(e, indent, max_width) == Seq::<char>::empty());
    let x = match c {
        ChunkModel::Blank => seq!['\n'],
        ChunkModel::Comment(t) => t.push('\n'),
        ChunkModel::Definition(ls) => format_definition_spec(ls, indent, max_width).push('\n'),
    };
    assert(render_chunks(seq![c], indent, max_width) == Seq::<char>::empty() + x);
    assert(Seq::<char>::empty() + x =~= x);
    match c {
        ChunkModel::Blank => {},
        ChunkModel::Comment(t) => {
            assert(t.push('\n') =~= t + seq!['\n']);
        },
        ChunkModel::Definition(ls) => {
            let f = format_definition_spec(ls, indent, max_width);
            assert(f.push('\n') =~= f + seq!['\n']);
        },
    }
}

proof fn lemma_render_concat(a: Seq<ChunkModel>, b: Seq<ChunkModel>, indent: Seq<char>, max_width: nat)
    ensures
        render_chunks(a + b, indent, max_width) == render_chunks(a, indent, max_width) + render_chunks(
            b,
            indent,
            max_width,
        ),
    decreases b.len(),
{
    if b.len() == 0 {
        assert(a + b =~= a);
        assert(render_chunks(b, indent, max_width) =~= seq![]);
        assert(render_chunks(a, indent, max_width) + seq![] =~= render_chunks(a, indent, max_width));
    } else {
        lemma_render_concat(a, b.drop_last(), indent, max_width);
        assert((a + b).drop_last() =~= a + b.drop_last());
        assert((a + b).last() == b.last());
        let x = render_chunks(a, indent, max_width);
        let y = render_chunks(b.drop_last(), indent, max_width);
        let z = render_chunks(seq![b.last()], indent, max_width);
        assert(render_chunks(a + b, indent, max_width) =~= x + y + (render_chunks(b, indent, max_width).skip(
            y.len() as int,
        )));
        assert(x + y + render_chunks(b, indent, max_width).skip(y.len() as int) =~= x + render_chunks(
            b,
            indent,
            max_width,
        ));
    }
}

proof fn lemma_render_cons(c: ChunkModel, rest: Seq<ChunkModel>, indent: Seq<char>, max_width: nat)
    ensures
        has_text(render_chunks(seq![c] + rest, indent, max_width)) <==> (has_text(
            render_chunks(seq![c], indent, max_width),
        ) || has_text(render_chunks(rest, indent, max_width))),
{
    lemma_render_concat(seq![c], rest, indent, max_width);
    lemma_has_text_concat(render_chunks(seq![c], indent, max_width), render_chunks(rest, indent, max_width));
}

proof fn lemma_chunks_blank(ls: Seq<Seq<char>>, indent: Seq<char>, max_width: nat)
    requires
        forall|i: int| 0 <= i < ls.len() ==> (#[trigger] trim(ls[i])).len() == 0,
    ensures
        !has_text(render_chunks(chunks_spec(ls, indent, seq![]), indent, max_width)),
    decreases ls.len(),
{
    if ls.len() > 0 {
        let rest = ls.drop_first();
        assert(trim(ls[0]).len() == 0);
        assert forall|i: int| 0 <= i < rest.len() implies (#[trigger] trim(rest[i])).len() == 0 by {
            assert(rest[i] == ls[i + 1]);
        }
        lemma_chunks_blank(rest, indent, max_width);
        lemma_render_cons(ChunkModel::Blank, chunks_spec(rest, indent, seq![]), indent, max_width);
        lemma_render_one(ChunkModel::Blank, indent, max_width);
        assert(!has_text(seq!['\n']));
    } else {
        assert(render_chunks(chunks_spec(ls, indent, seq![]), indent, max_width) =~= seq![]);
    }
}

proof fn lemma_chunks_text(ls: Seq<Seq<char>>, indent: Seq<char>, max_width: nat, pending: Seq<Seq<char>>)
    requires
        pending.len() > 0 ==> trim(pending[0]).len() > 0,
        pending.len() > 0 || exists|i: int| 0 <= i < ls.len() && (#[trigger] trim(ls[i])).len() > 0,
    ensures
        has_text(render_chunks(chunks_spec(ls, indent, pending), indent, max_width)),
    decreases ls.len(),
{
    if ls.len() == 0 {
        lemma_definition_text(pending, indent, max_width);
        let f = format_definition_spec(pending, indent, max_width);
        lemma_has_text_concat(f, seq!['\n']);
        lemma_render_one(ChunkModel::Definition(pending), indent, max_width);
        assert(chunks_spec(ls, indent, pending) == seq![ChunkModel::Definition(pending)]);
    } else {
        let line = ls[0];
        let rest = ls.drop_first();
        let t = trim(line);
        if pending.len() > 0 || !(t.len() == 0 || starts_with(t, slash2())) {
            let p2 = pending.push(line);
            assert(trim(p2[0]).len() > 0);
            if definition_complete_spec(p2) {
                lemma_definition_text(p2, indent, max_width);
                let c = ChunkModel::Definition(p2);
                lemma_render_cons(c, chunks_spec(rest, indent, seq![]), indent, max_width);
                let f = format_definition_spec(p2, indent, max_width);
                lemma_render_one(c, indent, max_width);
                lemma_has_text_concat(f, seq!['\n']);
            } else {
                lemma_chunks_text(rest, indent, max_width, p2);
            }
        } else {
            assert(pending =~= Seq::<Seq<char>>::empty());
            if t.len() == 0 {
                let i = choose|i: int| 0 <= i < ls.len() && (#[trigger] trim(ls[i])).len() > 0;
                assert(i != 0);
                assert(rest[i - 1] == ls[i]);
                assert(trim(rest[i - 1]).len() > 0);
                lemma_chunks_text(rest, indent, max_width, seq![]);
                lemma_render_cons(ChunkModel::Blank, chunks_spec(rest, indent, seq![]), indent, max_width);
            } else {
                lemma_trim_first(line);
                let c = ChunkModel::Comment(indent + t);
                lemma_render_cons(c, chunks_spec(rest, indent, seq![]), indent, max_width);
                lemma_render_one(c, indent, max_width);
                let one = render_chunks(seq![c], indent, max_width);
                assert(one[indent.len() as int] == t[0]);
                assert(t[0] != '\n');
            }
        }
    }
}

/// Formatting definition-file content gives empty text exactly when every
/// line of the input is blank; otherwise the text ends in one newline and
/// not in two.
pub proof fn law_format_definitions_shape(input: Seq<char>, indent: Seq<char>, max_width: nat)
    ensures
        format_definitions_spec(input, indent, max_width).len() == 0 <==> (forall|i: int|
            0 <= i < lines(input).len() ==> (#[trigger] trim(lines(input)[i])).len() == 0),
        ({
            let r = format_definitions_spec(input, indent, max_width);
            r.len() > 0 ==> r.len() >= 2 && r.last() == '\n' && r[r.len() - 2] != '\n'
        }),
{
    let ls = lines(input);
    let s = render_chunks(chunks_spec(ls, indent, seq![]), indent, max_width);
    lemma_trim_newlines(s);
    if forall|i: int| 0 <= i < ls.len() ==> (#[trigger] trim(ls[i])).len() == 0 {
        lemma_chunks_blank(ls, indent, max_width);
    } else {
        lemma_chunks_text(ls, indent, max_width, seq![]);
        let t = trim_newlines(s);
        let r = format_definitions_spec(input, indent, max_width);
        assert(r == t.push('\n'));
        assert(r[r.len() - 2] == t.last());
    }
}

/// Whether `s` holds no newline.
pub open spec fn no_newline(s: Seq<char>) -> bool {
    forall|k: int| 0 <= k < s.len() ==> s[k] != '\n'
}

/// Whether `s` holds `p` from position `i` on.
pub open spec fn holds_at(s: Seq<char>, i: int, p: Seq<char>) -> bool {
    &&& 0 <= i
    &&& i + p.len() <= s.len()
    &&& forall|k: int| 0 <= k < p.len() ==> s[i + k] == p[k]
}

/// Whether every line of `s` that is not empty begins with `indent`.
pub open spec fn lines_indented(s: Seq<char>, indent: Seq<char>) -> bool {
    forall|i: int|
        0 <= i < s.len() && (i == 0 || s[i - 1] == '\n') && s[i] != '\n' ==> #[trigger] holds_at(
            s,
            i,
            indent,
        )
}

/// Whether `s` is empty or ends a line.
pub open spec fn ends_line(s: Seq<char>) -> bool {
    s.len() == 0 || s.last() == '\n'
}

proof fn lemma_no_newline_concat(a: Seq<char>, b: Seq<char>)
    ensures
        no_newline(a + b) <==> (no_newline(a) && no_newline(b)),
{
    let ab = a + b;
    if no_newline(ab) {
        assert forall|k: int| 0 <= k < a.len() implies a[k] != '\n' by {
            assert(ab[k] == a[k]);
        }
        assert forall|k: int| 0 <= k < b.len() implies b[k] != '\n' by {
            assert(ab[a.len() + k] == b[k]);
        }
    }
    if no_newline(a) && no_newline(b) {
        assert forall|k: int| 0 <= k < ab.len() implies ab[k] != '\n' by {
            if k < a.len() {
                assert(ab[k] == a[k]);
            } else {
                assert(ab[k] == b[k - a.len()]);
            }
        }
    }
}

proof fn lemma_no_newline_sub(s: Seq<char>, a: int, b: int)
    requires
        no_newline(s),
        0 <= a <= b <= s.len(),
    ensures
        no_newline(s.subrange(a, b)),
{
    assert forall|k: int| 0 <= k < b - a implies s.subrange(a, b)[k] != '\n' by {
        assert(s.subrange(a, b)[k] == s[a + k]);
    }
}

proof fn lemma_no_newline_trim(s: Seq<char>)
    requires
        no_newline(s),
    ensures
        no_newline(trim_start(s)),
        no_newline(trim_end(s)),
        no_newline(trim(s)),
    decreases s.len(),
{
    if s.len() > 0 {
        lemma_no_newline_sub(s, 1, s.len() as int);
        lemma_no_newline_sub(s, 0, s.len() - 1);
        assert(s.drop_first() =~= s.subrange(1, s.len() as int));
        assert(s.drop_last() =~= s.subrange(0, s.len() - 1));
        lemma_no_newline_trim(s.drop_first());
        lemma_no_newline_trim(s.drop_last());
    }
    if no_newline(trim_start(s)) {
        lemma_trim_end_prefix(trim_start(s));
    }
    lemma_trim_end_prefix(s);
}

proof fn lemma_lines_no_newline(s: Seq<char>)
    ensures
        forall|i: int| 0 <= i < lines(s).len() ==> no_newline(#[trigger] lines(s)[i]),
    decreases s.len(),
{
    if s.len() > 0 {
        crate::text::lemma_newline_pos(s);
        let k = crate::text::newline_pos(s);
        if k < s.len() {
            lemma_lines_no_newline(s.skip(k + 1));
            let first = s.take(k);
            assert(no_newline(first));
            if first.len() > 0 {
                lemma_no_newline_sub(first, 0, first.len() - 1);
                assert(first.drop_last() =~= first.subrange(0, first.len() - 1));
            }
            let ls = lines(s);
            assert forall|i: int| 0 <= i < ls.len() implies no_newline(#[trigger] ls[i]) by {
                if i > 0 {
                    assert(ls[i] == lines(s.skip(k + 1))[i - 1]);
                }
            }
        }
    }
}

proof fn lemma_fix_no_newline(s: Seq<char>, i: int, ins: bool)
    requires
        no_newline(s),
    ensures
        no_newline(fix_from(s, i, ins)),
    decreases s.len() - i,
{
    if 0 <= i < s.len() {
        let ch = s[i];
        if ch == '\\' && ins && i + 1 < s.len() {
            lemma_fix_no_newline(s, i + 2, ins);
            lemma_no_newline_concat(seq![ch, s[i + 1]], fix_from(s, i + 2, ins));
        } else if ch == '"' {
            lemma_fix_no_newline(s, i + 1, !ins);
            lemma_no_newline_concat(seq![ch], fix_from(s, i + 1, !ins));
        } else if !ins && ch == ':' && i + 1 < s.len() && crate::formatter::unicode_alnum(s[i + 1]) {
            crate::formatter::lemma_tag_end(s, i + 1);
            let j = crate::formatter::tag_end(s, i + 1);
            let sp = if j < s.len() && s[j] == '{' && j > i + 1 {
                seq![' ']
            } else {
                seq![]
            };
            lemma_fix_no_newline(s, j, ins);
            lemma_no_newline_sub(s, i + 1, j);
            lemma_no_newline_concat(seq![ch], s.subrange(i + 1, j));
            lemma_no_newline_concat(seq![ch] + s.subrange(i + 1, j), sp);
            lemma_no_newline_concat(seq![ch] + s.subrange(i + 1, j) + sp, fix_from(s, j, ins));
        } else {
            lemma_fix_no_newline(s, i + 1, ins);
            lemma_no_newline_concat(seq![ch], fix_from(s, i + 1, ins));
        }
    }
}

proof fn lemma_trailing_no_newline(s: Seq<char>, i: int, ins: bool)
    requires
        no_newline(s),
    ensures
        no_newline(trailing_from(s, i, ins)),
    decreases s.len() - i,
{
    if 0 <= i < s.len() {
        let ch = s[i];
        if ch == '\\' && ins && i + 1 < s.len() {
            lemma_trailing_no_newline(s, i + 2, ins);
            lemma_no_newline_concat(seq![ch, s[i + 1]], trailing_from(s, i + 2, ins));
        } else if ch == '"' {
            lemma_trailing_no_newline(s, i + 1, !ins);
            lemma_no_newline_concat(seq![ch], trailing_from(s, i + 1, !ins));
        } else if !ins && ch == ',' && crate::formatter::skip_spaces(s, i + 1) < s.len() && s[crate::formatter::skip_spaces(s, i + 1)] == '}' {
            crate::formatter::lemma_skip_spaces(s, i + 1);
            let j = crate::formatter::skip_spaces(s, i + 1);
            lemma_trailing_no_newline(s, j, ins);
            lemma_no_newline_concat(seq![' '], trailing_from(s, j, ins));
        } else {
            lemma_trailing_no_newline(s, i + 1, ins);
            lemma_no_newline_concat(seq![ch], trailing_from(s, i + 1, ins));
        }
    }
}

proof fn lemma_join_no_newline(ps: Seq<Seq<char>>, sep: Seq<char>)
    requires
        no_newline(sep),
        forall|i: int| 0 <= i < ps.len() ==> no_newline(#[trigger] ps[i]),
    ensures
        no_newline(join(ps, sep)),
    decreases ps.len(),
{
    if ps.len() > 1 {
        let p = ps.drop_last();
        assert forall|i: int| 0 <= i < p.len() implies no_newline(#[trigger] p[i]) by {
            assert(p[i] == ps[i]);
        }
        lemma_join_no_newline(p, sep);
        lemma_no_newline_concat(join(p, sep), sep);
        lemma_no_newline_concat(join(p, sep) + sep, ps.last());
    } else if ps.len() == 1 {
        assert(no_newline(ps[0]));
    }
}

proof fn lemma_nonempty_trims_no_newline(ls: Seq<Seq<char>>)
    requires
        forall|i: int| 0 <= i < ls.len() ==> no_newline(#[trigger] ls[i]),
    ensures
        forall|i: int| 0 <= i < nonempty_trims(ls).len() ==> no_newline(#[trigger] nonempty_trims(ls)[i]),
    decreases ls.len(),
{
    if ls.len() > 0 {
        let p = ls.drop_last();
        assert forall|i: int| 0 <= i < p.len() implies no_newline(#[trigger] p[i]) by {
            assert(p[i] == ls[i]);
        }
        lemma_nonempty_trims_no_newline(p);
        assert(no_newline(ls[ls.len() - 1]));
        lemma_no_newline_trim(ls.last());
        let q = nonempty_trims(p);
        let r = nonempty_trims(ls);
        assert forall|i: int| 0 <= i < r.len() implies no_newline(#[trigger] r[i]) by {
            if i < q.len() {
                assert(r[i] == q[i]);
            } else {
                assert(r[i] == trim(ls.last()));
            }
        }
    }
}

proof fn lemma_block_no_newline(s: Seq<char>)
    requires
        no_newline(s),
    ensures
        crate::formatter::outermost_block(s) matches Some((p, c, x)) ==> no_newline(p) && no_newline(c)
            && no_newline(x),
{
    crate::formatter::lemma_first_open(s, 0, false);
    if let Some(start) = crate::formatter::first_open(s, 0, false) {
        crate::formatter::lemma_match_close(s, start + 1, false, 1);
        assert(crate::formatter::match_close(s, start, false, 0) == crate::formatter::match_close(
            s,
            start + 1,
            false,
            1,
        ));
        if let Some(end) = crate::formatter::match_close(s, start, false, 0) {
            lemma_no_newline_sub(s, 0, start);
            assert(s.take(start) =~= s.subrange(0, start));
            lemma_no_newline_trim(s.take(start));
            lemma_no_newline_sub(s, start + 1, end);
            lemma_no_newline_sub(s, end + 1, s.len() as int);
            assert(s.skip(end + 1) =~= s.subrange(end + 1, s.len() as int));
        }
    }
}

proof fn lemma_split_no_newline(s: Seq<char>, i: int, ins: bool, depth: int, cur: Seq<char>)
    requires
        no_newline(s),
        no_newline(cur),
    ensures
        forall|k: int| 0 <= k < crate::formatter::split_from(s, i, ins, depth, cur).len() ==> no_newline(
            #[trigger] crate::formatter::split_from(s, i, ins, depth, cur)[k],
        ),
    decreases s.len() - i,
{
    if i < 0 || i >= s.len() {
        lemma_no_newline_trim(cur);
        let r = crate::formatter::split_from(s, i, ins, depth, cur);
        assert forall|k: int| 0 <= k < r.len() implies no_newline(#[trigger] r[k]) by {
            assert(r[k] == trim(cur));
        }
    } else {
        let ch = s[i];
        if ch == '\\' && ins && i + 1 < s.len() {
            lemma_no_newline_concat(cur, seq![ch, s[i + 1]]);
            lemma_split_no_newline(s, i + 2, ins, depth, cur + seq![ch, s[i + 1]]);
            assert(crate::formatter::split_from(s, i, ins, depth, cur) == crate::formatter::split_from(
                s, i + 2, ins, depth, cur + seq![ch, s[i + 1]]));
        } else if ch == '"' {
            lemma_no_newline_concat(cur, seq![ch]);
            assert(cur.push(ch) =~= cur + seq![ch]);
            lemma_split_no_newline(s, i + 1, !ins, depth, cur.push(ch));
            assert(crate::formatter::split_from(s, i, ins, depth, cur) == crate::formatter::split_from(
                s, i + 1, !ins, depth, cur.push(ch)));
        } else if !ins && ch == '{' {
            lemma_no_newline_concat(cur, seq![ch]);
            assert(cur.push(ch) =~= cur + seq![ch]);
            lemma_split_no_newline(s, i + 1, ins, depth + 1, cur.push(ch));
            assert(crate::formatter::split_from(s, i, ins, depth, cur) == crate::formatter::split_from(
                s, i + 1, ins, depth + 1, cur.push(ch)));
        } else if !ins && ch == '}' {
            lemma_no_newline_concat(cur, seq![ch]);
            assert(cur.push(ch) =~= cur + seq![ch]);
            lemma_split_no_newline(s, i + 1, ins, depth - 1, cur.push(ch));
            assert(crate::formatter::split_from(s, i, ins, depth, cur) == crate::formatter::split_from(
                s, i + 1, ins, depth - 1, cur.push(ch)));
        } else if !ins && ch == ',' && depth == 0 {
            lemma_no_newline_trim(cur);
            lemma_split_no_newline(s, i + 1, ins, depth, seq![]);
            let rest = crate::formatter::split_from(s, i + 1, ins, depth, seq![]);
            let all = seq![trim(cur)] + rest;
            assert forall|k: int| 0 <= k < all.len() implies no_newline(#[trigger] all[k]) by {
                if k > 0 {
                    assert(all[k] == rest[k - 1]);
                } else {
                    assert(all[k] == trim(cur));
                }
            }
            assert(crate::formatter::split_from(s, i, ins, depth, cur) == all);
        } else {
            lemma_no_newline_concat(cur, seq![ch]);
            assert(cur.push(ch) =~= cur + seq![ch]);
            lemma_split_no_newline(s, i + 1, ins, depth, cur.push(ch));
            assert(crate::formatter::split_from(s, i, ins, depth, cur) == crate::formatter::split_from(
                s, i + 1, ins, depth, cur.push(ch)));
        }
    }
}

proof fn lemma_split_ann_no_newline(rem: Seq<char>, anns: Seq<char>)
    requires
        no_newline(rem),
        no_newline(anns),
    ensures
        no_newline(crate::formatter::split_ann(rem, anns).0),
        no_newline(crate::formatter::split_ann(rem, anns).1),
    decreases rem.len(),
{
    lemma_no_newline_trim(rem);
    let r = trim_start(rem);
    if r.len() > 0 && r[0] == ':' {
        crate::text::lemma_trim_start_len(rem);
        crate::formatter::lemma_ann_end(r);
        let i = crate::formatter::ann_end(r);
        lemma_no_newline_sub(r, 0, i);
        assert(r.take(i) =~= r.subrange(0, i));
        lemma_no_newline_sub(r, i, r.len() as int);
        assert(r.skip(i) =~= r.subrange(i, r.len() as int));
        let anns2 = if anns.len() > 0 {
            anns.push(' ') + r.take(i)
        } else {
            r.take(i)
        };
        lemma_no_newline_concat(anns, seq![' ']);
        assert(anns.push(' ') =~= anns + seq![' ']);
        lemma_no_newline_concat(anns.push(' '), r.take(i));
        lemma_no_newline_trim(r.skip(i));
        let next = trim_start(r.skip(i));
        if !(next.len() > 0 && (next[0] == '{' || next[0] == '"')) {
            lemma_split_ann_no_newline(r.skip(i), anns2);
        }
    }
}

proof fn lemma_one_line(s: Seq<char>, indent: Seq<char>)
    requires
        no_newline(s),
        holds_at(s, 0, indent),
    ensures
        lines_indented(s + seq!['\n'], indent),
        ends_line(s + seq!['\n']),
{
    let l = s + seq!['\n'];
    assert forall|i: int|
        0 <= i < l.len() && (i == 0 || l[i - 1] == '\n') && l[i] != '\n' implies #[trigger] holds_at(
        l,
        i,
        indent,
    ) by {
        if i > 0 {
            assert(l[i - 1] == s[i - 1]);
        }
        assert forall|k: int| 0 <= k < indent.len() implies l[i + k] == indent[k] by {
            assert(l[k] == s[k]);
        }
    }
}

proof fn lemma_indented_line(indent: Seq<char>, x: Seq<char>)
    requires
        no_newline(indent),
        no_newline(x),
    ensures
        lines_indented(indent + x + seq!['\n'], indent),
        ends_line(indent + x + seq!['\n']),
{
    lemma_no_newline_concat(indent, x);
    let s = indent + x;
    assert forall|k: int| 0 <= k < indent.len() implies s[0 + k] == indent[k] by {}
    lemma_one_line(s, indent);
}

proof fn lemma_lines_concat(a: Seq<char>, b: Seq<char>, indent: Seq<char>)
    requires
        lines_indented(a, indent),
        lines_indented(b, indent),
        ends_line(a),
    ensures
        lines_indented(a + b, indent),
        ends_line(b) ==> ends_line(a + b),
{
    let ab = a + b;
    assert forall|i: int|
        0 <= i < ab.len() && (i == 0 || ab[i - 1] == '\n') && ab[i] != '\n' implies #[trigger] holds_at(
        ab,
        i,
        indent,
    ) by {
        if i < a.len() {
            assert(ab[i] == a[i]);
            if i > 0 {
                assert(ab[i - 1] == a[i - 1]);
            }
            assert(holds_at(a, i, indent));
            assert forall|k: int| 0 <= k < indent.len() implies ab[i + k] == indent[k] by {
                assert(ab[i + k] == a[i + k]);
            }
        } else {
            let j = i - a.len();
            assert(ab[i] == b[j]);
            if j > 0 {
                assert(ab[i - 1] == b[j - 1]);
            } else if i > 0 {
                assert(ab[i - 1] == a[a.len() - 1]);
            }
            assert(holds_at(b, j, indent));
            assert forall|k: int| 0 <= k < indent.len() implies ab[i + k] == indent[k] by {
                assert(ab[i + k] == b[j + k]);
            }
        }
    }
    if b.len() > 0 {
        assert(ab.last() == b.last());
    } else {
        assert(ab =~= a);
    }
}

proof fn lemma_no_newline3(a: Seq<char>, b: Seq<char>, c: Seq<char>)
    requires
        no_newline(a),
        no_newline(b),
        no_newline(c),
    ensures
        no_newline(a + b + c),
{
    lemma_no_newline_concat(a, b);
    lemma_no_newline_concat(a + b, c);
}

proof fn lemma_newline_only(indent: Seq<char>)
    ensures
        lines_indented(seq!['\n'], indent),
        ends_line(seq!['\n']),
        lines_indented(Seq::<char>::empty(), indent),
        ends_line(Seq::<char>::empty()),
{
}

proof fn lemma_nested_lines(ns: Seq<Seq<char>>, indent: Seq<char>)
    requires
        no_newline(indent),
        forall|i: int| 0 <= i < ns.len() ==> no_newline(#[trigger] ns[i]),
    ensures
        lines_indented(
            crate::formatter::nested_lines(ns, indent + crate::formatter::four_spaces() + crate::formatter::four_spaces()),
            indent,
        ),
        ends_line(
            crate::formatter::nested_lines(ns, indent + crate::formatter::four_spaces() + crate::formatter::four_spaces()),
        ),
    decreases ns.len(),
{
    let four = crate::formatter::four_spaces();
    let nind = indent + four + four;
    lemma_newline_only(indent);
    if ns.len() > 0 {
        let p = ns.drop_last();
        assert forall|i: int| 0 <= i < p.len() implies no_newline(#[trigger] p[i]) by {
            assert(p[i] == ns[i]);
        }
        lemma_nested_lines(p, indent);
        let t = trim(ns.last());
        assert(no_newline(ns[ns.len() - 1]));
        lemma_no_newline_trim(ns.last());
        let a = crate::formatter::nested_lines(p, nind);
        if t.len() > 0 {
            let x = four + four + t + seq![','];
            lemma_no_newline3(four, four, t);
            lemma_no_newline_concat(four + four + t, seq![',']);
            lemma_indented_line(indent, x);
            assert(nind + t + seq![',', '\n'] =~= indent + x + seq!['\n']);
            lemma_lines_concat(a, indent + x + seq!['\n'], indent);
        } else {
            assert(a + Seq::<char>::empty() =~= a);
        }
    }
}

proof fn lemma_entries_lines(es: Seq<Seq<char>>, indent: Seq<char>, max_width: nat)
    requires
        no_newline(indent),
        forall|i: int| 0 <= i < es.len() ==> no_newline(#[trigger] es[i]),
    ensures
        lines_indented(
            crate::formatter::expand_entries(es, indent + crate::formatter::four_spaces(), max_width),
            indent,
        ),
        ends_line(crate::formatter::expand_entries(es, indent + crate::formatter::four_spaces(), max_width)),
    decreases es.len(),
{
    let four = crate::formatter::four_spaces();
    let ind = indent + four;
    lemma_newline_only(indent);
    if es.len() > 0 {
        let p = es.drop_last();
        assert forall|i: int| 0 <= i < p.len() implies no_newline(#[trigger] p[i]) by {
            assert(p[i] == es[i]);
        }
        lemma_entries_lines(p, indent, max_width);
        let a = crate::formatter::expand_entries(p, ind, max_width);
        let e = es.last();
        assert(no_newline(es[es.len() - 1]));
        lemma_no_newline_trim(e);
        let t = trim(e);
        let et = crate::formatter::entry_text(e, ind, max_width);
        if t.len() == 0 {
            assert(a + et =~= a);
        } else {
            let line = ind + t + seq![','];
            let x = four + t + seq![','];
            lemma_no_newline3(four, t, seq![',']);
            lemma_indented_line(indent, x);
            assert(line + seq!['\n'] =~= indent + x + seq!['\n']);
            if crate::formatter::width(line) > max_width && crate::formatter::nested_spec(t, ind, max_width) is Some {
                lemma_block_no_newline(t);
                let (ep, bc, es2) = crate::formatter::outermost_block(t)->0;
                let nested = crate::formatter::split_from(bc, 0, false, 0, seq![]);
                let single = ind + t + seq![','];
                if crate::formatter::width(single) > max_width {
                    lemma_split_no_newline(bc, 0, false, 0, seq![]);
                    lemma_nested_lines(nested, indent);
                    let xa = four + ep + seq![' ', '{'];
                    lemma_no_newline3(four, ep, seq![' ', '{']);
                    lemma_indented_line(indent, xa);
                    let xc = four + seq!['}'] + es2 + seq![','];
                    lemma_no_newline3(four, seq!['}'], es2);
                    lemma_no_newline_concat(four + seq!['}'] + es2, seq![',']);
                    lemma_indented_line(indent, xc);
                    let la = indent + xa + seq!['\n'];
                    let lb = crate::formatter::nested_lines(nested, ind + four);
                    let lc = indent + xc + seq!['\n'];
                    assert(ind + four =~= indent + four + four);
                    lemma_lines_concat(la, lb, indent);
                    lemma_lines_concat(la + lb, lc, indent);
                    let n = ind + ep + crate::formatter::open_nl() + lb + ind + seq!['}'] + es2 + seq![','];
                    assert(n + seq!['\n'] =~= la + lb + lc);
                }
            }
            lemma_lines_concat(a, et, indent);
        }
    }
}

proof fn lemma_expand_lines(fixed: Seq<char>, indent: Seq<char>, max_width: nat)
    requires
        no_newline(indent),
        no_newline(fixed),
        expand_spec(fixed, indent, max_width) is Some,
    ensures
        lines_indented(expand_spec(fixed, indent, max_width)->0 + seq!['\n'], indent),
{
    let four = crate::formatter::four_spaces();
    lemma_block_no_newline(fixed);
    let (prefix, content, suffix) = crate::formatter::outermost_block(fixed)->0;
    let entries = crate::formatter::split_from(content, 0, false, 0, seq![]);
    lemma_split_no_newline(content, 0, false, 0, seq![]);
    lemma_entries_lines(entries, indent, max_width);
    let xa = prefix + seq![' ', '{'];
    lemma_no_newline_concat(prefix, seq![' ', '{']);
    lemma_indented_line(indent, xa);
    let xc = seq!['}'] + suffix;
    lemma_no_newline_concat(seq!['}'], suffix);
    lemma_indented_line(indent, xc);
    let la = indent + xa + seq!['\n'];
    let lb = crate::formatter::expand_entries(entries, indent + four, max_width);
    let lc = indent + xc + seq!['\n'];
    lemma_lines_concat(la, lb, indent);
    lemma_lines_concat(la + lb, lc, indent);
    assert(expand_spec(fixed, indent, max_width)->0 + seq!['\n'] =~= la + lb + lc);
}

proof fn lemma_break_lines(fixed: Seq<char>, indent: Seq<char>, max_width: nat)
    requires
        no_newline(indent),
        no_newline(fixed),
        break_spec(fixed, indent, max_width) is Some,
    ensures
        lines_indented(break_spec(fixed, indent, max_width)->0 + seq!['\n'], indent),
{
    let four = crate::formatter::four_spaces();
    crate::formatter::lemma_first_eq(fixed, 0, false);
    let eq = crate::formatter::first_eq(fixed, 0, false)->0;
    let lhs = trim_end(fixed.take(eq));
    let rhs = trim(fixed.skip(eq + 1));
    lemma_no_newline_sub(fixed, 0, eq);
    assert(fixed.take(eq) =~= fixed.subrange(0, eq));
    lemma_no_newline_trim(fixed.take(eq));
    lemma_no_newline_sub(fixed, eq + 1, fixed.len() as int);
    assert(fixed.skip(eq + 1) =~= fixed.subrange(eq + 1, fixed.len() as int));
    lemma_no_newline_trim(fixed.skip(eq + 1));
    lemma_no_newline_trim(rhs);
    lemma_split_ann_no_newline(trim(rhs), seq![]);
    let (ann, body) = crate::formatter::split_annotations_spec(rhs);
    let ind = indent + four;
    let r = break_spec(fixed, indent, max_width)->0;
    let x1 = lhs + seq![' ', '='];
    lemma_no_newline_concat(lhs, seq![' ', '=']);
    lemma_indented_line(indent, x1);
    let l1 = indent + x1 + seq!['\n'];
    if ann.len() == 0 {
        let xr = four + rhs;
        lemma_no_newline_concat(four, rhs);
        lemma_indented_line(indent, xr);
        let lr = indent + xr + seq!['\n'];
        lemma_lines_concat(l1, lr, indent);
        let res = indent + lhs + eq_nl() + ind + rhs;
        assert(r == res);
        assert(res + seq!['\n'] =~= l1 + lr);
    } else {
        let xb = four + body;
        lemma_no_newline_concat(four, body);
        lemma_indented_line(indent, xb);
        let lbody = indent + xb + seq!['\n'];
        let first = indent + lhs + eq_sp() + ann;
        let res1 = first + seq!['\n'] + ind + body;
        let res2 = indent + lhs + eq_nl() + ind + ann + seq!['\n'] + ind + body;
        if r == res1 {
            let xf = lhs + eq_sp() + ann;
            lemma_no_newline3(lhs, eq_sp(), ann);
            lemma_indented_line(indent, xf);
            let lf = indent + xf + seq!['\n'];
            lemma_lines_concat(lf, lbody, indent);
            assert(res1 + seq!['\n'] =~= lf + lbody);
        } else {
            assert(r == res2);
            let xn = four + ann;
            lemma_no_newline_concat(four, ann);
            lemma_indented_line(indent, xn);
            let lann = indent + xn + seq!['\n'];
            lemma_lines_concat(l1, lann, indent);
            lemma_lines_concat(l1 + lann, lbody, indent);
            assert(res2 + seq!['\n'] =~= l1 + lann + lbody);
        }
    }
}

/// The text of one definition, with its newline, has each of its lines
/// indented.
proof fn lemma_definition_lines(ls: Seq<Seq<char>>, indent: Seq<char>, max_width: nat)
    requires
        no_newline(indent),
        forall|i: int| 0 <= i < ls.len() ==> no_newline(#[trigger] ls[i]),
    ensures
        lines_indented(format_definition_spec(ls, indent, max_width) + seq!['\n'], indent),
{
    lemma_nonempty_trims_no_newline(ls);
    lemma_join_no_newline(nonempty_trims(ls), seq![' ']);
    let joined = joined_definition(ls);
    let fixed = fix_from(joined, 0, false);
    lemma_fix_no_newline(joined, 0, false);
    lemma_trailing_no_newline(fixed, 0, false);
    let tf = trailing_from(fixed, 0, false);
    let single = indent + tf;
    let r = format_definition_spec(ls, indent, max_width);
    if r == single {
        lemma_indented_line(indent, tf);
    } else if expand_spec(fixed, indent, max_width) is Some {
        lemma_expand_lines(fixed, indent, max_width);
    } else {
        lemma_break_lines(fixed, indent, max_width);
    }
}

/// Whether a chunk keeps to the shape that indented lines come from.
pub open spec fn chunk_indented(c: ChunkModel, indent: Seq<char>) -> bool {
    match c {
        ChunkModel::Blank => true,
        ChunkModel::Comment(x) => no_newline(x) && holds_at(x, 0, indent),
        ChunkModel::Definition(ls) => forall|i: int| 0 <= i < ls.len() ==> no_newline(#[trigger] ls[i]),
    }
}

proof fn lemma_chunks_indented(ls: Seq<Seq<char>>, indent: Seq<char>, pending: Seq<Seq<char>>)
    requires
        no_newline(indent),
        forall|i: int| 0 <= i < ls.len() ==> no_newline(#[trigger] ls[i]),
        forall|i: int| 0 <= i < pending.len() ==> no_newline(#[trigger] pending[i]),
    ensures
        forall|k: int| 0 <= k < chunks_spec(ls, indent, pending).len() ==> chunk_indented(
            #[trigger] chunks_spec(ls, indent, pending)[k],
            indent,
        ),
    decreases ls.len(),
{
    let cs = chunks_spec(ls, indent, pending);
    if ls.len() == 0 {
        if pending.len() > 0 {
            assert(cs == seq![ChunkModel::Definition(pending)]);
            assert(chunk_indented(cs[0], indent));
        } else {
            assert(cs.len() == 0);
        }
    } else {
        let line = ls[0];
        let rest = ls.drop_first();
        assert forall|i: int| 0 <= i < rest.len() implies no_newline(#[trigger] rest[i]) by {
            assert(rest[i] == ls[i + 1]);
        }
        let t = trim(line);
        let e = Seq::<Seq<char>>::empty();
        lemma_chunks_indented(rest, indent, e);
        let tail = chunks_spec(rest, indent, e);
        if pending.len() > 0 || !(t.len() == 0 || starts_with(t, slash2())) {
            let p2 = pending.push(line);
            assert forall|i: int| 0 <= i < p2.len() implies no_newline(#[trigger] p2[i]) by {
                if i < pending.len() {
                    assert(p2[i] == pending[i]);
                }
            }
            if definition_complete_spec(p2) {
                let c = ChunkModel::Definition(p2);
                assert(chunk_indented(c, indent));
                assert forall|k: int| 0 <= k < cs.len() implies chunk_indented(#[trigger] cs[k], indent) by {
                    assert(cs == seq![c] + tail);
                    if k > 0 {
                        assert(cs[k] == tail[k - 1]);
                    }
                }
            } else {
                lemma_chunks_indented(rest, indent, p2);
                assert(cs == chunks_spec(rest, indent, p2));
            }
        } else {
            let c = if t.len() == 0 {
                ChunkModel::Blank
            } else {
                ChunkModel::Comment(indent + t)
            };
            if t.len() > 0 {
                lemma_no_newline_trim(line);
                lemma_no_newline_concat(indent, t);
                assert(holds_at(indent + t, 0, indent));
            }
            assert(chunk_indented(c, indent));
            assert forall|k: int| 0 <= k < cs.len() implies chunk_indented(#[trigger] cs[k], indent) by {
                assert(cs == seq![c] + tail);
                if k > 0 {
                    assert(cs[k] == tail[k - 1]);
                }
            }
        }
    }
}

proof fn lemma_render_indented(cs: Seq<ChunkModel>, indent: Seq<char>, max_width: nat)
    requires
        no_newline(indent),
        forall|k: int| 0 <= k < cs.len() ==> chunk_indented(#[trigger] cs[k], indent),
    ensures
        lines_indented(render_chunks(cs, indent, max_width), indent),
        ends_line(render_chunks(cs, indent, max_width)),
    decreases cs.len(),
{
    lemma_newline_only(indent);
    if cs.len() > 0 {
        let p = cs.drop_last();
        assert forall|k: int| 0 <= k < p.len() implies chunk_indented(#[trigger] p[k], indent) by {
            assert(p[k] == cs[k]);
        }
        lemma_render_indented(p, indent, max_width);
        let c = cs.last();
        assert(chunk_indented(cs[cs.len() - 1], indent));
        let x = match c {
            ChunkModel::Blank => seq!['\n'],
            ChunkModel::Comment(t) => t.push('\n'),
            ChunkModel::Definition(ls) => format_definition_spec(ls, indent, max_width).push('\n'),
        };
        match c {
            ChunkModel::Blank => {},
            ChunkModel::Comment(t) => {
                assert(t.push('\n') =~= t + seq!['\n']);
                lemma_one_line(t, indent);
            },
            ChunkModel::Definition(ls) => {
                let f = format_definition_spec(ls, indent, max_width);
                assert(f.push('\n') =~= f + seq!['\n']);
                lemma_definition_lines(ls, indent, max_width);
            },
        }
        assert(ends_line(x));
        lemma_lines_concat(render_chunks(p, indent, max_width), x, indent);
    }
}

/// When the base indent holds no newline, every line of formatted
/// definition-file content that is not empty begins with the base indent.
pub proof fn law_format_definitions_indented(input: Seq<char>, indent: Seq<char>, max_width: nat)
    requires
        no_newline(indent),
    ensures
        lines_indented(format_definitions_spec(input, indent, max_width), indent),
{
    let ls = lines(input);
    lemma_lines_no_newline(input);
    let e = Seq::<Seq<char>>::empty();
    lemma_chunks_indented(ls, indent, e);
    let s = render_chunks(chunks_spec(ls, indent, e), indent, max_width);
    lemma_render_indented(chunks_spec(ls, indent, e), indent, max_width);
    lemma_trim_newlines(s);
    let t = trim_newlines(s);
    let r = format_definitions_spec(input, indent, max_width);
    if t.len() > 0 {
        assert(r == t.push('\n'));
        assert forall|i: int|
            0 <= i < r.len() && (i == 0 || r[i - 1] == '\n') && r[i] != '\n' implies #[trigger] holds_at(
            r,
            i,
            indent,
        ) by {
            assert(i < t.len());
            assert(r[i] == s[i]);
            if i > 0 {
                assert(r[i - 1] == s[i - 1]);
            }
            assert(holds_at(s, i, indent));
            assert forall|k: int| 0 <= k < indent.len() implies i + k < t.len() && #[trigger] indent[k] != '\n' by {
                assert(s[i + k] == indent[k]);
                assert(indent[k] != '\n');
            }
            if indent.len() > 0 {
                assert(indent[indent.len() - 1] != '\n');
                assert(i + indent.len() - 1 < t.len());
            }
            assert forall|k: int| 0 <= k < indent.len() implies r[i + k] == indent[k] by {
                assert(i + k < t.len());
                assert(r[i + k] == s[i + k]);
            }
        }
    }
}

// ---------------------------------------------------------------------------
// `:from` definitions
// ---------------------------------------------------------------------------

proof fn lemma_env_insert_keys(m: Seq<(Seq<char>, Seq<char>)>, k: Seq<char>, t: Seq<char>)
    ensures
        forall|x: Seq<char>| #[trigger] variant_keys(env_insert(m, k, t)).contains(x) <==> (
        variant_keys(m).contains(x) || x == k),
{
    lemma_key_index_range(m, k);
    let r = env_insert(m, k, t);
    let vr = variant_keys(r);
    let vm = variant_keys(m);
    assert forall|x: Seq<char>| #[trigger] vr.contains(x) <==> (vm.contains(x) || x == k) by {
        match key_index(m, k) {
            Some(i) => {
                if vr.contains(x) {
                    let j = choose|j: int| 0 <= j < vr.len() && vr[j] == x;
                    if j != i {
                        assert(vm[j] == x);
                    }
                }
                if vm.contains(x) {
                    let j = choose|j: int| 0 <= j < vm.len() && vm[j] == x;
                    if j == i {
                        assert(vr[i] == k);
                    } else {
                        assert(vr[j] == x);
                    }
                }
                if x == k {
                    assert(vr[i] == k);
                }
            },
            None => {
                assert(vr =~= vm.push(k));
                if vr.contains(x) {
                    let j = choose|j: int| 0 <= j < vr.len() && vr[j] == x;
                    if j < vm.len() {
                        assert(vm[j] == x);
                    }
                }
                if vm.contains(x) {
                    let j = choose|j: int| 0 <= j < vm.len() && vm[j] == x;
                    assert(vr[j] == x);
                }
                if x == k {
                    assert(vr[vm.len() as int] == k);
                }
            },
        }
    }
}

proof fn lemma_keys_step(keys: Seq<Seq<char>>, prev: Seq<(Seq<char>, Seq<char>)>, t: Seq<char>)
    requires
        keys.len() > 0,
        forall|x: Seq<char>| #[trigger] variant_keys(prev).contains(x) <==> keys.drop_last().contains(x),
    ensures
        forall|x: Seq<char>| #[trigger] variant_keys(env_insert(prev, keys.last(), t)).contains(x)
            <==> keys.contains(x),
{
    lemma_env_insert_keys(prev, keys.last(), t);
    assert(keys =~= keys.drop_last().push(keys.last()));
    assert forall|x: Seq<char>| #[trigger] keys.contains(x) <==> (keys.drop_last().contains(x) || x
        == keys.last()) by {
        if keys.contains(x) {
            let j = choose|j: int| 0 <= j < keys.len() && keys[j] == x;
            if j < keys.len() - 1 {
                assert(keys.drop_last()[j] == x);
            }
        }
        if keys.drop_last().contains(x) {
            let j = choose|j: int| 0 <= j < keys.len() - 1 && keys.drop_last()[j] == x;
            assert(keys[j] == x);
        }
        if x == keys.last() {
            assert(keys[keys.len() - 1] == x);
        }
    }
}

proof fn lemma_simple_loop_keys(reg: Seq<PhraseDefinitionModel>, d: PhraseDefinitionModel, fp: Seq<char>, sp: PhraseModel, t: Seq<SegmentModel>, keys: Seq<Seq<char>>, c: CtxModel, lang: Seq<char>)
    ensures
        from_simple_loop(reg, d, fp, sp, t, keys, c, lang) matches Ok(vs) ==> forall|x: Seq<char>|
            #[trigger] variant_keys(vs).contains(x) <==> keys.contains(x),
    decreases keys.len(),
{
    if keys.len() > 0 {
        lemma_simple_loop_keys(reg, d, fp, sp, t, keys.drop_last(), c, lang);
        if let Ok(prev) = from_simple_loop(reg, d, fp, sp, t, keys.drop_last(), c, lang) {
            if let Ok(text) = eval_segs(reg, t, variant_ctx(d, fp, sp, keys.last(), c), lang) {
                lemma_keys_step(keys, prev, text);
            }
        }
    }
}

proof fn lemma_variants_loop_keys(reg: Seq<PhraseDefinitionModel>, d: PhraseDefinitionModel, fp: Seq<char>, sp: PhraseModel, es: Seq<VariantEntryModel>, keys: Seq<Seq<char>>, c: CtxModel, lang: Seq<char>)
    ensures
        from_variants_loop(reg, d, fp, sp, es, keys, c, lang) matches Ok(vs) ==> forall|x: Seq<char>|
            #[trigger] variant_keys(vs).contains(x) <==> keys.contains(x),
    decreases keys.len(),
{
    if keys.len() > 0 {
        lemma_variants_loop_keys(reg, d, fp, sp, es, keys.drop_last(), c, lang);
        if let Ok(prev) = from_variants_loop(reg, d, fp, sp, es, keys.drop_last(), c, lang) {
            if let Some(i) = entry_for_variant(es, keys.last()) {
                if let Ok(text) = eval_entry_body(reg, es[i].body, variant_ctx(d, fp, sp, keys.last(), c), lang) {
                    lemma_keys_step(keys, prev, text);
                }
            }
        }
    }
}

proof fn lemma_match_loop_keys(reg: Seq<PhraseDefinitionModel>, d: PhraseDefinitionModel, fp: Seq<char>, sp: PhraseModel, bs: Seq<MatchBranchModel>, keys: Seq<Seq<char>>, c: CtxModel, lang: Seq<char>)
    ensures
        from_match_loop(reg, d, fp, sp, bs, keys, c, lang) matches Ok(vs) ==> forall|x: Seq<char>|
            #[trigger] variant_keys(vs).contains(x) <==> keys.contains(x),
    decreases keys.len(),
{
    if keys.len() > 0 {
        lemma_match_loop_keys(reg, d, fp, sp, bs, keys.drop_last(), c, lang);
        if let Ok(prev) = from_match_loop(reg, d, fp, sp, bs, keys.drop_last(), c, lang) {
            if let Ok(text) = eval_match(reg, bs, d.match_params, variant_ctx(d, fp, sp, keys.last(), c), lang) {
                lemma_keys_step(keys, prev, text);
            }
        }
    }
}

/// A `:from($p)` definition needs `$p` bound to a phrase: unbound, or bound
/// to anything else, it is an error that names the parameter. Evaluated, it
/// keeps the source phrase's tags and has a variant for exactly the source
/// phrase's variant keys.
pub proof fn law_from_inherits(reg: Seq<PhraseDefinitionModel>, d: PhraseDefinitionModel, fp: Seq<char>, c: CtxModel, lang: Seq<char>)
    ensures
        env_get(c.params, fp) is None ==> eval_from(reg, d, fp, c, lang) == Err::<PhraseModel, EvalErrorModel>(
            from_not_found(fp),
        ),
        (env_get(c.params, fp) matches Some(v) && !(v is Phrase)) ==> eval_from(reg, d, fp, c, lang)
            == Err::<PhraseModel, EvalErrorModel>(from_not_phrase(fp)),
        eval_from(reg, d, fp, c, lang) matches Ok(r) ==> (env_get(c.params, fp) matches Some(
            ValueModel::Phrase(sp),
        ) && r.tags == sp.tags && forall|x: Seq<char>|
            #[trigger] variant_keys(r.variants).contains(x) <==> variant_keys(sp.variants).contains(x)),
{
    if let Some(ValueModel::Phrase(sp)) = env_get(c.params, fp) {
        let keys = sort_strings(variant_keys(sp.variants));
        lemma_sort_strings(variant_keys(sp.variants));
        assert forall|x: Seq<char>| #[trigger] keys.contains(x) <==> variant_keys(sp.variants).contains(x) by {
            assert(keys.to_multiset().count(x) == variant_keys(sp.variants).to_multiset().count(x));
        }
        if sp.variants.len() == 0 {
            assert(variant_keys(sp.variants).len() == 0);
            assert forall|x: Seq<char>| #[trigger] variant_keys(Seq::<(Seq<char>, Seq<char>)>::empty()).contains(x)
                <==> variant_keys(sp.variants).contains(x) by {
                assert(variant_keys(Seq::<(Seq<char>, Seq<char>)>::empty()).len() == 0);
            }
        }
        match d.body {
            PhraseBodyModel::Simple(t) => {
                lemma_simple_loop_keys(reg, d, fp, sp, t, keys, c, lang);
            },
            PhraseBodyModel::Variants(es) => {
                lemma_variants_loop_keys(reg, d, fp, sp, es, keys, c, lang);
            },
            PhraseBodyModel::Match(bs) => {
                lemma_match_loop_keys(reg, d, fp, sp, bs, keys, c, lang);
            },
        }
    }
}

/// How a reference by name or call is refused: a name not in the registry
/// is not found; a phrase (one with parameters) named without arguments is
/// refused, and so are arguments to a term and a call with the wrong number
/// of arguments. A term found by name resolves to a phrase, and literals
/// resolve to themselves.
pub proof fn law_reference_errors(reg: Seq<PhraseDefinitionModel>, r: ReferenceModel, c: CtxModel, lang: Seq<char>)
    ensures
        (r matches ReferenceModel::Identifier(n) && reg_get(reg, n) matches Some(d) && d.is_phrase)
            ==> resolve_ref(reg, r, c, lang) == Err::<ValueModel, EvalErrorModel>(
            EvalErrorModel::SelectorOnPhrase(r->Identifier_0),
        ),
        (r matches ReferenceModel::Identifier(n) && resolve_ref(reg, r, c, lang) is Ok) ==> (resolve_ref(
            reg,
            r,
            c,
            lang,
        )->Ok_0 is Phrase),
        (r matches ReferenceModel::PhraseCall { name, args } && reg_get(reg, name) is None) ==> resolve_ref(
            reg,
            r,
            c,
            lang,
        ) == Err::<ValueModel, EvalErrorModel>(EvalErrorModel::PhraseNotFound(r->name)),
        (r matches ReferenceModel::PhraseCall { name, args } && reg_get(reg, name) matches Some(d)
            && !d.is_phrase) ==> resolve_ref(reg, r, c, lang) == Err::<ValueModel, EvalErrorModel>(
            EvalErrorModel::ArgumentsToTerm(r->name),
        ),
        (r matches ReferenceModel::PhraseCall { name, args } && reg_get(reg, name) matches Some(d)
            && d.is_phrase && d.parameters.len() != args.len()) ==> resolve_ref(reg, r, c, lang) == Err::<
            ValueModel,
            EvalErrorModel,
        >(
            EvalErrorModel::ArgumentCount {
                phrase: r->name,
                expected: reg_get(reg, r->name)->0.parameters.len(),
                got: r->args.len(),
            },
        ),
        r matches ReferenceModel::NumberLiteral(x) ==> resolve_ref(reg, r, c, lang) == Ok::<
            ValueModel,
            EvalErrorModel,
        >(ValueModel::Number(x)),
        r matches ReferenceModel::StringLiteral(t) ==> resolve_ref(reg, r, c, lang) == Ok::<
            ValueModel,
            EvalErrorModel,
        >(ValueModel::Str(t)),
{
}

/// Selectors: none keep the value as it is; a `:*` among them gives a
/// phrase's default text with its tags and no variants, and keeps any other
/// value; any other selection that succeeds on a phrase gives a variant text
/// with the phrase's tags and no variants.
pub proof fn law_selectors(v: ValueModel, sels: Seq<SelectorModel>, env: Seq<(Seq<char>, ValueModel)>, lang: Seq<char>)
    ensures
        apply_selectors_spec(v, seq![], env, lang) == Ok::<ValueModel, EvalErrorModel>(v),
        (sels.len() > 0 && has_default_selector(sels)) ==> apply_selectors_spec(v, sels, env, lang) == match v {
            ValueModel::Phrase(p) => Ok::<ValueModel, EvalErrorModel>(plain_phrase(p.text, p.tags)),
            _ => Ok::<ValueModel, EvalErrorModel>(v),
        },
        (sels.len() > 0 && v is Phrase && apply_selectors_spec(v, sels, env, lang) is Ok) ==> (apply_selectors_spec(
            v,
            sels,
            env,
            lang,
        )->Ok_0 matches ValueModel::Phrase(q) && q.tags == v->Phrase_0.tags && q.variants.len() == 0),
        (sels.len() > 0 && !has_default_selector(sels) && !(v is Phrase) && all_candidates(sels, env, lang) is Ok)
            ==> apply_selectors_spec(v, sels, env, lang) is Err,
{
}

// ---------------------------------------------------------------------------
// Joining phrases
// ---------------------------------------------------------------------------

proof fn lemma_lookup_found(es: Seq<(Seq<char>, Seq<char>)>, k: Seq<char>)
    ensures
        lookup(es, k) is Some <==> exists|i: int| 0 <= i < es.len() && (#[trigger] es[i]).0 == k,
        lookup(es, k) matches Some(v) ==> exists|i: int| 0 <= i < es.len() && #[trigger] es[i] == (k, v),
    decreases es.len(),
{
    if es.len() > 0 {
        lemma_lookup_found(es.drop_first(), k);
        let d = es.drop_first();
        if exists|i: int| 0 <= i < es.len() && (#[trigger] es[i]).0 == k {
            let i = choose|i: int| 0 <= i < es.len() && (#[trigger] es[i]).0 == k;
            if i > 0 {
                assert(d[i - 1] == es[i]);
            }
        }
        if exists|i: int| 0 <= i < d.len() && (#[trigger] d[i]).0 == k {
            let i = choose|i: int| 0 <= i < d.len() && (#[trigger] d[i]).0 == k;
            assert(es[i + 1] == d[i]);
        }
        if es[0].0 != k {
            if let Some(v) = lookup(d, k) {
                let i = choose|i: int| 0 <= i < d.len() && #[trigger] d[i] == (k, v);
                assert(es[i + 1] == d[i]);
            }
        } else {
            assert(es[0] == (k, es[0].1));
        }
    }
}

proof fn lemma_shared_from(ps: Seq<PhraseModel>, sep: Seq<char>, es: Seq<(Seq<char>, Seq<char>)>)
    ensures
        forall|i: int| 0 <= i < shared_from(ps, sep, es).len() ==> {
            let e = #[trigger] shared_from(ps, sep, es)[i];
            in_all(ps, e.0) && e.1 == join(texts_for(ps, e.0), sep)
        },
        forall|j: int| 0 <= j < es.len() && in_all(ps, (#[trigger] es[j]).0) ==> exists|i: int|
            0 <= i < shared_from(ps, sep, es).len() && (#[trigger] shared_from(ps, sep, es)[i]).0 == es[j].0,
    decreases es.len(),
{
    if es.len() > 0 {
        let d = es.drop_last();
        lemma_shared_from(ps, sep, d);
        let prev = shared_from(ps, sep, d);
        let r = shared_from(ps, sep, es);
        assert forall|i: int| 0 <= i < r.len() implies {
            let e = #[trigger] r[i];
            in_all(ps, e.0) && e.1 == join(texts_for(ps, e.0), sep)
        } by {
            if i < prev.len() {
                assert(r[i] == prev[i]);
            }
        }
        assert forall|j: int| 0 <= j < es.len() && in_all(ps, (#[trigger] es[j]).0) implies exists|i: int|
            0 <= i < r.len() && (#[trigger] r[i]).0 == es[j].0 by {
            if j < es.len() - 1 {
                assert(d[j] == es[j]);
                let i = choose|i: int| 0 <= i < prev.len() && (#[trigger] prev[i]).0 == d[j].0;
                assert(r[i] == prev[i]);
            } else {
                assert(r[r.len() - 1].0 == es[j].0);
            }
        }
    }
}

/// Joining phrases keeps a variant key exactly when every phrase has it, and
/// its text is that key's texts in all the phrases, in order, joined with
/// the separator.
pub proof fn law_join_variants(ps: Seq<PhraseModel>, sep: Seq<char>, k: Seq<char>)
    requires
        ps.len() > 0,
    ensures
        lookup(shared_variants(ps, sep), k) is Some <==> in_all(ps, k),
        in_all(ps, k) ==> lookup(shared_variants(ps, sep), k) == Some(join(texts_for(ps, k), sep)),
{
    let es = ps[0].variants;
    let r = shared_variants(ps, sep);
    lemma_shared_from(ps, sep, es);
    lemma_lookup_found(r, k);
    lemma_lookup_found(es, k);
    if lookup(r, k) is Some {
        let i = choose|i: int| 0 <= i < r.len() && (#[trigger] r[i]).0 == k;
        assert(in_all(ps, r[i].0));
    }
    if in_all(ps, k) {
        assert(lookup(ps[0].variants, k) is Some);
        let j = choose|j: int| 0 <= j < es.len() && (#[trigger] es[j]).0 == k;
        assert(in_all(ps, es[j].0));
        let i = choose|i: int| 0 <= i < r.len() && (#[trigger] r[i]).0 == es[j].0;
        assert(r[i].0 == k);
        let v = lookup(r, k)->0;
        let i2 = choose|i: int| 0 <= i < r.len() && #[trigger] r[i] == (k, v);
        assert(r[i2].1 == join(texts_for(ps, r[i2].0), sep));
    }
}

// ---------------------------------------------------------------------------
// Variant keys
// ---------------------------------------------------------------------------

/// Whether no key occurs twice among the variants `es`.
pub open spec fn distinct_keys(es: Seq<(Seq<char>, Seq<char>)>) -> bool {
    forall|i: int, j: int| 0 <= i < j < es.len() ==> (#[trigger] es[i]).0 != (#[trigger] es[j]).0
}

proof fn lemma_key_index_absent(m: Seq<(Seq<char>, Seq<char>)>, k: Seq<char>)
    requires
        key_index(m, k) is None,
    ensures
        forall|i: int| 0 <= i < m.len() ==> (#[trigger] m[i]).0 != k,
    decreases m.len(),
{
    if m.len() > 0 {
        lemma_key_index_absent(m.drop_last(), k);
        assert forall|i: int| 0 <= i < m.len() implies (#[trigger] m[i]).0 != k by {
            if i < m.len() - 1 {
                assert(m[i] == m.drop_last()[i]);
            }
        }
    }
}

proof fn lemma_env_insert_distinct(m: Seq<(Seq<char>, Seq<char>)>, k: Seq<char>, t: Seq<char>)
    requires
        distinct_keys(m),
    ensures
        distinct_keys(env_insert(m, k, t)),
{
    lemma_key_index_range(m, k);
    let r = env_insert(m, k, t);
    match key_index(m, k) {
        Some(x) => {
            assert forall|i: int, j: int| 0 <= i < j < r.len() implies (#[trigger] r[i]).0 != (
            #[trigger] r[j]).0 by {
                assert(r[i].0 == m[i].0);
                assert(r[j].0 == m[j].0);
            }
        },
        None => {
            lemma_key_index_absent(m, k);
            assert forall|i: int, j: int| 0 <= i < j < r.len() implies (#[trigger] r[i]).0 != (
            #[trigger] r[j]).0 by {
                assert(r[i] == m[i]);
                if j < m.len() {
                    assert(r[j] == m[j]);
                } else {
                    assert(r[j].0 == k);
                }
            }
        },
    }
}

proof fn lemma_insert_all_distinct(m: Seq<(Seq<char>, Seq<char>)>, keys: Seq<Seq<char>>, t: Seq<char>)
    requires
        distinct_keys(m),
    ensures
        distinct_keys(insert_all(m, keys, t)),
    decreases keys.len(),
{
    if keys.len() > 0 {
        lemma_insert_all_distinct(m, keys.drop_last(), t);
        lemma_env_insert_distinct(insert_all(m, keys.drop_last(), t), keys.last(), t);
    }
}

proof fn lemma_variants_of_distinct(es: Seq<VariantEntryModel>, texts: Seq<Seq<char>>)
    ensures
        distinct_keys(variants_of(es, texts)),
    decreases es.len(),
{
    if es.len() > 0 && texts.len() > 0 {
        lemma_variants_of_distinct(es.drop_last(), texts.drop_last());
        lemma_insert_all_distinct(variants_of(es.drop_last(), texts.drop_last()), es.last().keys, texts.last());
    }
}

proof fn lemma_simple_loop_distinct(reg: Seq<PhraseDefinitionModel>, d: PhraseDefinitionModel, fp: Seq<char>, sp: PhraseModel, t: Seq<SegmentModel>, keys: Seq<Seq<char>>, c: CtxModel, lang: Seq<char>)
    ensures
        from_simple_loop(reg, d, fp, sp, t, keys, c, lang) matches Ok(vs) ==> distinct_keys(vs),
    decreases keys.len(),
{
    if keys.len() > 0 {
        lemma_simple_loop_distinct(reg, d, fp, sp, t, keys.drop_last(), c, lang);
        if let Ok(prev) = from_simple_loop(reg, d, fp, sp, t, keys.drop_last(), c, lang) {
            if let Ok(text) = eval_segs(reg, t, variant_ctx(d, fp, sp, keys.last(), c), lang) {
                lemma_env_insert_distinct(prev, keys.last(), text);
            }
        }
    }
}

proof fn lemma_variants_loop_distinct(reg: Seq<PhraseDefinitionModel>, d: PhraseDefinitionModel, fp: Seq<char>, sp: PhraseModel, es: Seq<VariantEntryModel>, keys: Seq<Seq<char>>, c: CtxModel, lang: Seq<char>)
    ensures
        from_variants_loop(reg, d, fp, sp, es, keys, c, lang) matches Ok(vs) ==> distinct_keys(vs),
    decreases keys.len(),
{
    if keys.len() > 0 {
        lemma_variants_loop_distinct(reg, d, fp, sp, es, keys.drop_last(), c, lang);
        if let Ok(prev) = from_variants_loop(reg, d, fp, sp, es, keys.drop_last(), c, lang) {
            if let Some(i) = entry_for_variant(es, keys.last()) {
                if let Ok(text) = eval_entry_body(reg, es[i].body, variant_ctx(d, fp, sp, keys.last(), c), lang) {
                    lemma_env_insert_distinct(prev, keys.last(), text);
                }
            }
        }
    }
}

proof fn lemma_match_loop_distinct(reg: Seq<PhraseDefinitionModel>, d: PhraseDefinitionModel, fp: Seq<char>, sp: PhraseModel, bs: Seq<MatchBranchModel>, keys: Seq<Seq<char>>, c: CtxModel, lang: Seq<char>)
    ensures
        from_match_loop(reg, d, fp, sp, bs, keys, c, lang) matches Ok(vs) ==> distinct_keys(vs),
    decreases keys.len(),
{
    if keys.len() > 0 {
        lemma_match_loop_distinct(reg, d, fp, sp, bs, keys.drop_last(), c, lang);
        if let Ok(prev) = from_match_loop(reg, d, fp, sp, bs, keys.drop_last(), c, lang) {
            if let Ok(text) = eval_match(reg, bs, d.match_params, variant_ctx(d, fp, sp, keys.last(), c), lang) {
                lemma_env_insert_distinct(prev, keys.last(), text);
            }
        }
    }
}

/// A phrase that a definition evaluates to has each variant key at most
/// once (a later entry for a key replaces an earlier one).
pub proof fn law_evaluated_variant_keys_distinct(reg: Seq<PhraseDefinitionModel>, d: PhraseDefinitionModel, c: CtxModel, lang: Seq<char>)
    ensures
        eval_def(reg, d, c, lang) matches Ok(p) ==> distinct_keys(p.variants),
{
    match d.from_param {
        Some(fp) => {
            if let Some(ValueModel::Phrase(sp)) = env_get(c.params, fp) {
                let keys = sort_strings(variant_keys(sp.variants));
                match d.body {
                    PhraseBodyModel::Simple(t) => {
                        lemma_simple_loop_distinct(reg, d, fp, sp, t, keys, c, lang);
                    },
                    PhraseBodyModel::Variants(es) => {
                        lemma_variants_loop_distinct(reg, d, fp, sp, es, keys, c, lang);
                    },
                    PhraseBodyModel::Match(bs) => {
                        lemma_match_loop_distinct(reg, d, fp, sp, bs, keys, c, lang);
                    },
                }
            }
        },
        None => {
            if let PhraseBodyModel::Variants(es) = d.body {
                if let Ok(texts) = crate::semantics::entry_texts(reg, es, c, lang) {
                    lemma_variants_of_distinct(es, texts);
                }
            }
        },
    }
}

proof fn lemma_shared_from_distinct(ps: Seq<PhraseModel>, sep: Seq<char>, es: Seq<(Seq<char>, Seq<char>)>)
    requires
        distinct_keys(es),
    ensures
        distinct_keys(shared_from(ps, sep, es)),
        forall|i: int| 0 <= i < shared_from(ps, sep, es).len() ==> exists|j: int|
            0 <= j < es.len() && (#[trigger] shared_from(ps, sep, es)[i]).0 == (#[trigger] es[j]).0,
    decreases es.len(),
{
    if es.len() > 0 {
        let d = es.drop_last();
        assert(distinct_keys(d)) by {
            assert forall|i: int, j: int| 0 <= i < j < d.len() implies (#[trigger] d[i]).0 != (#[trigger] d[j]).0 by {
                assert(d[i] == es[i] && d[j] == es[j]);
            }
        }
        lemma_shared_from_distinct(ps, sep, d);
        let prev = shared_from(ps, sep, d);
        let r = shared_from(ps, sep, es);
        assert forall|i: int| 0 <= i < prev.len() implies (#[trigger] prev[i]).0 != es.last().0 by {
            let j = choose|j: int| 0 <= j < d.len() && prev[i].0 == (#[trigger] d[j]).0;
            assert(d[j] == es[j]);
            assert(es[j].0 != es[es.len() - 1].0);
        }
        assert forall|i: int, j: int| 0 <= i < j < r.len() implies (#[trigger] r[i]).0 != (#[trigger] r[j]).0 by {
            assert(r[i] == prev[i]);
            if j < prev.len() {
                assert(r[j] == prev[j]);
            } else {
                assert(r[j].0 == es.last().0);
            }
        }
        assert forall|i: int| 0 <= i < r.len() implies exists|j: int|
            0 <= j < es.len() && (#[trigger] r[i]).0 == (#[trigger] es[j]).0 by {
            if i < prev.len() {
                assert(r[i] == prev[i]);
                let j = choose|j: int| 0 <= j < d.len() && prev[i].0 == (#[trigger] d[j]).0;
                assert(d[j] == es[j]);
            } else {
                assert(r[i].0 == es[es.len() - 1].0);
            }
        }
    }
}

/// Joining phrases whose first phrase has each variant key at most once
/// gives a phrase with each variant key at most once.
pub proof fn law_join_keys_distinct(ps: Seq<PhraseModel>, sep: Seq<char>)
    requires
        ps.len() > 0,
        distinct_keys(ps[0].variants),
    ensures
        distinct_keys(shared_variants(ps, sep)),
{
    lemma_shared_from_distinct(ps, sep, ps[0].variants);
}

// ---------------------------------------------------------------------------
// Suggestions
// ---------------------------------------------------------------------------

proof fn lemma_filter_from(s: Seq<Seq<char>>, pred: spec_fn(Seq<char>) -> bool)
    ensures
        forall|i: int| 0 <= i < s.filter(pred).len() ==> s.contains(#[trigger] s.filter(pred)[i]),
    decreases s.len(),
{
    reveal(Seq::filter);
    if s.len() > 0 {
        lemma_filter_from(s.drop_last(), pred);
        let f = s.filter(pred);
        let p = s.drop_last().filter(pred);
        assert forall|i: int| 0 <= i < f.len() implies s.contains(#[trigger] f[i]) by {
            if i < p.len() {
                assert(f[i] == p[i]);
                let j = choose|j: int| 0 <= j < s.drop_last().len() && s.drop_last()[j] == p[i];
                assert(s[j] == p[i]);
            } else {
                assert(f[i] == s.last());
                assert(s[s.len() - 1] == f[i]);
            }
        }
    }
}

/// "Did you mean" suggestions are at most three candidates from those
/// available, each at edit distance 1 up to the largest allowed distance
/// (1 for keys of at most 3 bytes, else 2), nearest first; where fewer than
/// three are given, every candidate within that distance is among them.
pub proof fn law_suggestions(target: Seq<char>, available: Seq<Seq<char>>)
    ensures
        suggestions_spec(target, available).len() <= 3,
        forall|i: int| 0 <= i < suggestions_spec(target, available).len() ==> {
            let s = #[trigger] suggestions_spec(target, available)[i];
            &&& available.contains(s)
            &&& 1 <= edit_distance(target, s) <= max_suggestion_distance(target)
        },
        forall|i: int, j: int| 0 <= i < j < suggestions_spec(target, available).len() ==> edit_distance(
            target,
            #[trigger] suggestions_spec(target, available)[i],
        ) <= edit_distance(target, #[trigger] suggestions_spec(target, available)[j]),
        suggestions_spec(target, available).len() < 3 ==> forall|k: int| 0 <= k < available.len()
            && 1 <= edit_distance(target, #[trigger] available[k]) <= max_suggestion_distance(target)
            ==> suggestions_spec(target, available).contains(available[k]),
{
    let p1 = |c: Seq<char>| edit_distance(target, c) == 1;
    let p2 = |c: Seq<char>| edit_distance(target, c) == 2;
    let ones = at_distance(target, available, 1);
    let twos = at_distance(target, available, 2);
    assert(ones == available.filter(p1));
    assert(twos == available.filter(p2));
    available.filter_lemma(p1);
    available.filter_lemma(p2);
    lemma_filter_from(available, p1);
    lemma_filter_from(available, p2);
    let all = if max_suggestion_distance(target) == 1 {
        ones
    } else {
        ones + twos
    };
    let r = suggestions_spec(target, available);
    assert forall|i: int| 0 <= i < all.len() implies {
        &&& available.contains(#[trigger] all[i])
        &&& 1 <= edit_distance(target, all[i]) <= max_suggestion_distance(target)
        &&& (edit_distance(target, all[i]) == 1 <==> i < ones.len())
    } by {
        if i < ones.len() {
            assert(all[i] == ones[i]);
            assert(p1(ones[i]));
        } else {
            assert(all[i] == twos[i - ones.len()]);
            assert(p2(twos[i - ones.len()]));
        }
    }
    assert forall|i: int| 0 <= i < r.len() implies {
        let s = #[trigger] r[i];
        &&& available.contains(s)
        &&& 1 <= edit_distance(target, s) <= max_suggestion_distance(target)
    } by {
        assert(r[i] == all[i]);
    }
    assert forall|i: int, j: int| 0 <= i < j < r.len() implies edit_distance(target, #[trigger] r[i])
        <= edit_distance(target, #[trigger] r[j]) by {
        assert(r[i] == all[i] && r[j] == all[j]);
        assert(available.contains(all[i]) && available.contains(all[j]));
    }
    if r.len() < 3 {
        assert(r == all);
        assert forall|k: int| 0 <= k < available.len() && 1 <= edit_distance(target, #[trigger] available[k])
            <= max_suggestion_distance(target) implies r.contains(available[k]) by {
            let c = available[k];
            if edit_distance(target, c) == 1 {
                assert(p1(available[k]));
                assert(ones.contains(c));
                let j = choose|j: int| 0 <= j < ones.len() && ones[j] == c;
                assert(all[j] == c);
            } else {
                assert(p2(available[k]));
                assert(twos.contains(c));
                let j = choose|j: int| 0 <= j < twos.len() && twos[j] == c;
                assert(all[ones.len() + j] == c);
            }
        }
    }
}

proof fn lemma_lookup_first(m: Seq<(Seq<char>, Seq<char>)>, x: Seq<char>, i: int)
    requires
        0 <= i < m.len(),
        m[i].0 == x,
        forall|j: int| 0 <= j < i ==> (#[trigger] m[j]).0 != x,
    ensures
        lookup(m, x) == Some(m[i].1),
    decreases i,
{
    if i > 0 {
        let d = m.drop_first();
        assert(m[0].0 != x);
        assert forall|j: int| 0 <= j < i - 1 implies (#[trigger] d[j]).0 != x by {
            assert(d[j] == m[j + 1]);
        }
        lemma_lookup_first(d, x, i - 1);
    }
}

proof fn lemma_lookup_update_other(m: Seq<(Seq<char>, Seq<char>)>, i: int, e: (Seq<char>, Seq<char>), x: Seq<char>)
    requires
        0 <= i < m.len(),
        e.0 != x,
        m[i].0 != x,
    ensures
        lookup(m.update(i, e), x) == lookup(m, x),
    decreases m.len(),
{
    let u = m.update(i, e);
    if i == 0 {
        assert(u.drop_first() =~= m.drop_first());
    } else {
        assert(u.drop_first() =~= m.drop_first().update(i - 1, e));
        lemma_lookup_update_other(m.drop_first(), i - 1, e, x);
        assert(u[0] == m[0]);
    }
}

proof fn lemma_lookup_push_other(m: Seq<(Seq<char>, Seq<char>)>, e: (Seq<char>, Seq<char>), x: Seq<char>)
    requires
        e.0 != x,
    ensures
        lookup(m.push(e), x) == lookup(m, x),
    decreases m.len(),
{
    let u = m.push(e);
    if m.len() == 0 {
        assert(u.drop_first() =~= Seq::<(Seq<char>, Seq<char>)>::empty());
    } else {
        assert(u.drop_first() =~= m.drop_first().push(e));
        lemma_lookup_push_other(m.drop_first(), e, x);
        assert(u[0] == m[0]);
    }
}

proof fn lemma_key_index_first(m: Seq<(Seq<char>, Seq<char>)>, x: Seq<char>)
    ensures
        key_index(m, x) matches Some(i) ==> forall|j: int| 0 <= j < i ==> (#[trigger] m[j]).0 != x,
    decreases m.len(),
{
    if m.len() > 0 {
        lemma_key_index_first(m.drop_last(), x);
        let d = m.drop_last();
        if m.last().0 == x && key_index(d, x) is None {
            lemma_key_index_absent(d, x);
            assert forall|j: int| 0 <= j < m.len() - 1 implies (#[trigger] m[j]).0 != x by {
                assert(m[j] == d[j]);
            }
        } else if let Some(i) = key_index(d, x) {
            lemma_key_index_range(d, x);
            assert forall|j: int| 0 <= j < i implies (#[trigger] m[j]).0 != x by {
                assert(m[j] == d[j]);
            }
        }
    }
}

proof fn lemma_lookup_env_insert(m: Seq<(Seq<char>, Seq<char>)>, k: Seq<char>, t: Seq<char>, x: Seq<char>)
    ensures
        lookup(env_insert(m, k, t), x) == if x == k {
            Some(t)
        } else {
            lookup(m, x)
        },
{
    lemma_key_index_range(m, k);
    lemma_key_index_first(m, k);
    match key_index(m, k) {
        Some(i) => {
            let u = m.update(i, (k, t));
            if x == k {
                assert forall|j: int| 0 <= j < i implies (#[trigger] u[j]).0 != x by {
                    assert(u[j] == m[j]);
                }
                lemma_lookup_first(u, x, i);
            } else {
                lemma_lookup_update_other(m, i, (k, t), x);
            }
        },
        None => {
            let u = m.push((k, t));
            if x == k {
                lemma_key_index_absent(m, k);
                assert forall|j: int| 0 <= j < m.len() implies (#[trigger] u[j]).0 != x by {
                    assert(u[j] == m[j]);
                }
                lemma_lookup_first(u, x, m.len() as int);
            } else {
                lemma_lookup_push_other(m, (k, t), x);
            }
        },
    }
}

proof fn lemma_contains_last(keys: Seq<Seq<char>>, x: Seq<char>)
    requires
        keys.len() > 0,
        keys.contains(x),
        x != keys.last(),
    ensures
        keys.drop_last().contains(x),
{
    let j = choose|j: int| 0 <= j < keys.len() && keys[j] == x;
    assert(keys.drop_last()[j] == x);
}

proof fn lemma_simple_loop_texts(reg: Seq<PhraseDefinitionModel>, d: PhraseDefinitionModel, fp: Seq<char>, sp: PhraseModel, t: Seq<SegmentModel>, keys: Seq<Seq<char>>, c: CtxModel, lang: Seq<char>)
    ensures
        from_simple_loop(reg, d, fp, sp, t, keys, c, lang) matches Ok(vs) ==> forall|x: Seq<char>|
            #[trigger] keys.contains(x) ==> eval_segs(reg, t, variant_ctx(d, fp, sp, x, c), lang) is Ok
                && lookup(vs, x) == Some(eval_segs(reg, t, variant_ctx(d, fp, sp, x, c), lang)->Ok_0),
    decreases keys.len(),
{
    if keys.len() > 0 {
        lemma_simple_loop_texts(reg, d, fp, sp, t, keys.drop_last(), c, lang);
        if let Ok(vs) = from_simple_loop(reg, d, fp, sp, t, keys, c, lang) {
            let prev = from_simple_loop(reg, d, fp, sp, t, keys.drop_last(), c, lang)->Ok_0;
            let k = keys.last();
            let text = eval_segs(reg, t, variant_ctx(d, fp, sp, k, c), lang)->Ok_0;
            assert forall|x: Seq<char>| #[trigger] keys.contains(x) implies eval_segs(
                reg,
                t,
                variant_ctx(d, fp, sp, x, c),
                lang,
            ) is Ok && lookup(vs, x) == Some(eval_segs(reg, t, variant_ctx(d, fp, sp, x, c), lang)->Ok_0) by {
                lemma_lookup_env_insert(prev, k, text, x);
                if x != k {
                    lemma_contains_last(keys, x);
                }
            }
        }
    }
}

proof fn lemma_variants_loop_texts(reg: Seq<PhraseDefinitionModel>, d: PhraseDefinitionModel, fp: Seq<char>, sp: PhraseModel, es: Seq<VariantEntryModel>, keys: Seq<Seq<char>>, c: CtxModel, lang: Seq<char>)
    ensures
        from_variants_loop(reg, d, fp, sp, es, keys, c, lang) matches Ok(vs) ==> forall|x: Seq<char>|
            #[trigger] keys.contains(x) ==> entry_for_variant(es, x) is Some && eval_entry_body(
                reg,
                es[entry_for_variant(es, x)->0].body,
                variant_ctx(d, fp, sp, x, c),
                lang,
            ) is Ok && lookup(vs, x) == Some(
                eval_entry_body(reg, es[entry_for_variant(es, x)->0].body, variant_ctx(d, fp, sp, x, c), lang)->Ok_0,
            ),
    decreases keys.len(),
{
    if keys.len() > 0 {
        lemma_variants_loop_texts(reg, d, fp, sp, es, keys.drop_last(), c, lang);
        if let Ok(vs) = from_variants_loop(reg, d, fp, sp, es, keys, c, lang) {
            let prev = from_variants_loop(reg, d, fp, sp, es, keys.drop_last(), c, lang)->Ok_0;
            let k = keys.last();
            let i = entry_for_variant(es, k)->0;
            let text = eval_entry_body(reg, es[i].body, variant_ctx(d, fp, sp, k, c), lang)->Ok_0;
            assert forall|x: Seq<char>| #[trigger] keys.contains(x) implies entry_for_variant(es, x) is Some
                && eval_entry_body(reg, es[entry_for_variant(es, x)->0].body, variant_ctx(d, fp, sp, x, c), lang)
                is Ok && lookup(vs, x) == Some(
                eval_entry_body(reg, es[entry_for_variant(es, x)->0].body, variant_ctx(d, fp, sp, x, c), lang)->Ok_0,
            ) by {
                lemma_lookup_env_insert(prev, k, text, x);
                if x != k {
                    lemma_contains_last(keys, x);
                }
            }
        }
    }
}

proof fn lemma_match_loop_texts(reg: Seq<PhraseDefinitionModel>, d: PhraseDefinitionModel, fp: Seq<char>, sp: PhraseModel, bs: Seq<MatchBranchModel>, keys: Seq<Seq<char>>, c: CtxModel, lang: Seq<char>)
    ensures
        from_match_loop(reg, d, fp, sp, bs, keys, c, lang) matches Ok(vs) ==> forall|x: Seq<char>|
            #[trigger] keys.contains(x) ==> eval_match(reg, bs, d.match_params, variant_ctx(d, fp, sp, x, c), lang)
                is Ok && lookup(vs, x) == Some(
                eval_match(reg, bs, d.match_params, variant_ctx(d, fp, sp, x, c), lang)->Ok_0,
            ),
    decreases keys.len(),
{
    if keys.len() > 0 {
        lemma_match_loop_texts(reg, d, fp, sp, bs, keys.drop_last(), c, lang);
        if let Ok(vs) = from_match_loop(reg, d, fp, sp, bs, keys, c, lang) {
            let prev = from_match_loop(reg, d, fp, sp, bs, keys.drop_last(), c, lang)->Ok_0;
            let k = keys.last();
            let text = eval_match(reg, bs, d.match_params, variant_ctx(d, fp, sp, k, c), lang)->Ok_0;
            assert forall|x: Seq<char>| #[trigger] keys.contains(x) implies eval_match(
                reg,
                bs,
                d.match_params,
                variant_ctx(d, fp, sp, x, c),
                lang,
            ) is Ok && lookup(vs, x) == Some(
                eval_match(reg, bs, d.match_params, variant_ctx(d, fp, sp, x, c), lang)->Ok_0,
            ) by {
                lemma_lookup_env_insert(prev, k, text, x);
                if x != k {
                    lemma_contains_last(keys, x);
                }
            }
        }
    }
}

proof fn lemma_variants_loop_missing(reg: Seq<PhraseDefinitionModel>, d: PhraseDefinitionModel, fp: Seq<char>, sp: PhraseModel, es: Seq<VariantEntryModel>, keys: Seq<Seq<char>>, c: CtxModel, lang: Seq<char>, x: Seq<char>)
    requires
        keys.contains(x),
        entry_for_variant(es, x) is None,
    ensures
        from_variants_loop(reg, d, fp, sp, es, keys, c, lang) is Err,
{
    lemma_variants_loop_texts(reg, d, fp, sp, es, keys, c, lang);
}

/// The text that a `:from` definition gives for the source variant key `x`:
/// its body evaluated with the parameter bound to that variant.
pub open spec fn from_variant_text(reg: Seq<PhraseDefinitionModel>, d: PhraseDefinitionModel, fp: Seq<char>, sp: PhraseModel, x: Seq<char>, c: CtxModel, lang: Seq<char>) -> Option<Seq<char>> {
    let vc = variant_ctx(d, fp, sp, x, c);
    match d.body {
        PhraseBodyModel::Simple(t) => match eval_segs(reg, t, vc, lang) {
            Ok(text) => Some(text),
            Err(_) => None,
        },
        PhraseBodyModel::Variants(es) => match entry_for_variant(es, x) {
            Some(i) => match eval_entry_body(reg, es[i].body, vc, lang) {
                Ok(text) => Some(text),
                Err(_) => None,
            },
            None => None,
        },
        PhraseBodyModel::Match(bs) => match eval_match(reg, bs, d.match_params, vc, lang) {
            Ok(text) => Some(text),
            Err(_) => None,
        },
    }
}

/// Each variant of a `:from($p)` definition, for a key `x` of the source
/// phrase bound to `$p`, is the definition's body evaluated with `$p` bound
/// to the source's variant `x` (its text, with the source's tags and
/// variants): the template of a simple body, the entry for that key (or
/// `*`) of a variant block, or the `:match` block. A variant block with no
/// entry for a key of the source and no `*` entry is an error.
pub proof fn law_from_variant_texts(reg: Seq<PhraseDefinitionModel>, d: PhraseDefinitionModel, fp: Seq<char>, sp: PhraseModel, c: CtxModel, lang: Seq<char>, x: Seq<char>)
    requires
        env_get(c.params, fp) == Some(ValueModel::Phrase(sp)),
        variant_keys(sp.variants).contains(x),
    ensures
        eval_from(reg, d, fp, c, lang) is Ok ==> from_variant_text(reg, d, fp, sp, x, c, lang) is Some
            && lookup(eval_from(reg, d, fp, c, lang)->Ok_0.variants, x) == from_variant_text(
            reg,
            d,
            fp,
            sp,
            x,
            c,
            lang,
        ),
        (d.body is Variants && entry_for_variant(d.body->Variants_0, x) is None) ==> eval_from(
            reg,
            d,
            fp,
            c,
            lang,
        ) is Err,
{
    let keys = sort_strings(variant_keys(sp.variants));
    lemma_sort_strings(variant_keys(sp.variants));
    assert(keys.contains(x)) by {
        assert(variant_keys(sp.variants).to_multiset().count(x) > 0);
        assert(keys.to_multiset().count(x) > 0);
    }
    assert(sp.variants.len() > 0) by {
        assert(variant_keys(sp.variants).len() > 0);
    }
    match d.body {
        PhraseBodyModel::Simple(t) => {
            lemma_simple_loop_texts(reg, d, fp, sp, t, keys, c, lang);
        },
        PhraseBodyModel::Variants(es) => {
            lemma_variants_loop_texts(reg, d, fp, sp, es, keys, c, lang);
            if entry_for_variant(es, x) is None {
                lemma_variants_loop_missing(reg, d, fp, sp, es, keys, c, lang, x);
            }
        },
        PhraseBodyModel::Match(bs) => {
            lemma_match_loop_texts(reg, d, fp, sp, bs, keys, c, lang);
        },
    }
}

// ---------------------------------------------------------------------------
// German articles
// ---------------------------------------------------------------------------

/// German `@der` gives the definite article of the noun's gender (from
/// `:masc`, else `:fem`, else `:neut`) in the case named by the context
/// (`acc`, `dat`, `gen`; nominative otherwise), a space, and the text:
/// masculine der/den/dem/des, feminine die/die/der/der, neuter das/das/dem/des.
/// Without a gender tag it is refused.
pub proof fn law_german_definite_article(v: ValueModel, case: Seq<char>, lang: Seq<char>)
    ensures
        value_has_tag(v, "masc"@) ==> transform_spec(
            TransformKind::GermanDer,
            v,
            Some(ValueModel::Str(case)),
            lang,
        ) == Ok::<Seq<char>, EvalErrorModel>(
            (if case == "acc"@ {
                "den"@
            } else if case == "dat"@ {
                "dem"@
            } else if case == "gen"@ {
                "des"@
            } else {
                "der"@
            }) + " "@ + value_text(v),
        ),
        !value_has_tag(v, "masc"@) && value_has_tag(v, "fem"@) ==> transform_spec(
            TransformKind::GermanDer,
            v,
            Some(ValueModel::Str(case)),
            lang,
        ) == Ok::<Seq<char>, EvalErrorModel>(
            (if case == "acc"@ {
                "die"@
            } else if case == "dat"@ {
                "der"@
            } else if case == "gen"@ {
                "der"@
            } else {
                "die"@
            }) + " "@ + value_text(v),
        ),
        !value_has_tag(v, "masc"@) && !value_has_tag(v, "fem"@) && value_has_tag(v, "neut"@) ==> transform_spec(
            TransformKind::GermanDer,
            v,
            Some(ValueModel::Str(case)),
            lang,
        ) == Ok::<Seq<char>, EvalErrorModel>(
            (if case == "acc"@ {
                "das"@
            } else if case == "dat"@ {
                "dem"@
            } else if case == "gen"@ {
                "des"@
            } else {
                "das"@
            }) + " "@ + value_text(v),
        ),
        !value_has_tag(v, "masc"@) && !value_has_tag(v, "fem"@) && !value_has_tag(v, "neut"@) ==> transform_spec(
            TransformKind::GermanDer,
            v,
            Some(ValueModel::Str(case)),
            lang,
        ) is Err,
{
}

// ---------------------------------------------------------------------------
// The likely-missing-`:from` lint
// ---------------------------------------------------------------------------

/// Whether `w` is a likely-missing-`:from` warning.
pub open spec fn is_missing_from(w: LoadWarningModel) -> bool {
    w is LikelyMissingFrom
}

proof fn lemma_selector_segs_kind(segs: Seq<SegmentModel>, keys: Seq<Seq<char>>, fp: Seq<char>, name: Seq<char>, lang: Seq<char>)
    ensures
        forall|i: int| 0 <= i < selector_lint_segs(segs, keys, fp, name, lang).len() ==> !is_missing_from(
            #[trigger] selector_lint_segs(segs, keys, fp, name, lang)[i],
        ),
    decreases segs.len(),
{
    if segs.len() > 0 {
        lemma_selector_segs_kind(segs.drop_last(), keys, fp, name, lang);
        let prev = selector_lint_segs(segs.drop_last(), keys, fp, name, lang);
        let r = selector_lint_segs(segs, keys, fp, name, lang);
        assert forall|i: int| 0 <= i < r.len() implies !is_missing_from(#[trigger] r[i]) by {
            if i < prev.len() {
                assert(r[i] == prev[i]);
            }
        }
    }
}

proof fn lemma_selector_entries_kind(es: Seq<VariantEntryModel>, fp: Seq<char>, name: Seq<char>, lang: Seq<char>)
    ensures
        forall|i: int| 0 <= i < selector_lint_entries(es, fp, name, lang).len() ==> !is_missing_from(
            #[trigger] selector_lint_entries(es, fp, name, lang)[i],
        ),
    decreases es.len(),
{
    if es.len() > 0 {
        lemma_selector_entries_kind(es.drop_last(), fp, name, lang);
        let prev = selector_lint_entries(es.drop_last(), fp, name, lang);
        let last = match es.last().body {
            VariantEntryBodyModel::Template(t) => selector_lint_segs(t, es.last().keys, fp, name, lang),
            VariantEntryBodyModel::Match { .. } => seq![],
        };
        if let VariantEntryBodyModel::Template(t) = es.last().body {
            lemma_selector_segs_kind(t, es.last().keys, fp, name, lang);
        }
        let r = selector_lint_entries(es, fp, name, lang);
        assert(r == prev + last);
        assert forall|i: int| 0 <= i < r.len() implies !is_missing_from(#[trigger] r[i]) by {
            if i < prev.len() {
                assert(r[i] == prev[i]);
            } else {
                assert(r[i] == last[i - prev.len()]);
            }
        }
    }
}

proof fn lemma_lint_one_missing_from(d: PhraseDefinitionModel, lang: Seq<char>)
    ensures
        forall|i: int| 0 <= i < lint_one(d, lang).len() && is_missing_from(#[trigger] lint_one(d, lang)[i])
            ==> d.is_phrase && d.from_param is None && d.tags.len() == 0 && lint_one(d, lang)[i]->LikelyMissingFrom_name
            == d.name && lint_one(d, lang)[i]->LikelyMissingFrom_language == lang,
{
    let a = passthrough_lint(d, lang);
    let b = selector_lint(d, lang);
    let m = missing_from_lint(d, lang);
    let w = wrapper_lint(d, lang);
    if let (Some(fp), PhraseBodyModel::Variants(es)) = (d.from_param, d.body) {
        lemma_selector_entries_kind(es, fp, d.name, lang);
    }
    let r = lint_one(d, lang);
    assert(r == a + b + m + w);
    assert forall|i: int| 0 <= i < r.len() && is_missing_from(#[trigger] r[i]) implies d.is_phrase
        && d.from_param is None && d.tags.len() == 0 && r[i]->LikelyMissingFrom_name == d.name
        && r[i]->LikelyMissingFrom_language == lang by {
        if i < a.len() {
            assert(r[i] == a[i]);
        } else if i < a.len() + b.len() {
            assert(r[i] == b[i - a.len()]);
        } else if i < a.len() + b.len() + m.len() {
            assert(r[i] == m[i - a.len() - b.len()]);
        } else {
            assert(r[i] == w[i - a.len() - b.len() - m.len()]);
        }
    }
}

/// A likely-missing-`:from` warning is only given for a phrase (a
/// definition with parameters) that has no `:from` and no tags of its own,
/// and it names that definition and the language: a phrase with tags of its
/// own is never warned about.
pub proof fn law_missing_from_only_untagged(defs: Seq<PhraseDefinitionModel>, lang: Seq<char>)
    ensures
        forall|i: int| 0 <= i < lint_all(defs, lang).len() && is_missing_from(#[trigger] lint_all(defs, lang)[i])
            ==> exists|j: int|
            0 <= j < defs.len() && (#[trigger] defs[j]).name == lint_all(defs, lang)[i]->LikelyMissingFrom_name
                && defs[j].is_phrase && defs[j].from_param is None && defs[j].tags.len() == 0
                && lint_all(defs, lang)[i]->LikelyMissingFrom_language == lang,
    decreases defs.len(),
{
    if defs.len() > 0 {
        let p = defs.drop_last();
        law_missing_from_only_untagged(p, lang);
        lemma_lint_one_missing_from(defs.last(), lang);
        let prev = lint_all(p, lang);
        let one = lint_one(defs.last(), lang);
        let r = lint_all(defs, lang);
        assert forall|i: int| 0 <= i < r.len() && is_missing_from(#[trigger] r[i]) implies exists|j: int|
            0 <= j < defs.len() && (#[trigger] defs[j]).name == r[i]->LikelyMissingFrom_name && defs[j].is_phrase
                && defs[j].from_param is None && defs[j].tags.len() == 0 && r[i]->LikelyMissingFrom_language
                == lang by {
            if i < prev.len() {
                assert(r[i] == prev[i]);
                let j = choose|j: int|
                    0 <= j < p.len() && (#[trigger] p[j]).name == prev[i]->LikelyMissingFrom_name
                        && p[j].is_phrase && p[j].from_param is None && p[j].tags.len() == 0
                        && prev[i]->LikelyMissingFrom_language == lang;
                assert(defs[j] == p[j]);
            } else {
                assert(r[i] == one[i - prev.len()]);
                assert(defs[defs.len() - 1] == defs.last());
            }
        }
    }
}

// ---------------------------------------------------------------------------
// `:match` on numbers
// ---------------------------------------------------------------------------

proof fn lemma_first_branch_at(bs: Seq<MatchBranchModel>, t: KeyTest, i: int, b: int)
    requires
        0 <= i <= b < bs.len(),
        any_key(bs[b].keys, t),
        forall|b2: int| i <= b2 < b ==> !any_key(#[trigger] bs[b2].keys, t),
    ensures
        first_branch(bs, t, i) == Some(b),
    decreases b - i,
{
    if i < b {
        assert(!any_key(bs[i].keys, t));
        lemma_first_branch_at(bs, t, i + 1, b);
    }
}

/// A `:match` on one parameter bound to a number selects the first branch
/// with a key written as that number in decimal, ahead of any branch keyed by
/// the number's plural category (so `{0: A, *other: B}` gives `A` for 0).
pub proof fn law_match_exact_number_first(reg: Seq<PhraseDefinitionModel>, bs: Seq<MatchBranchModel>, p: Seq<char>, c: CtxModel, lang: Seq<char>, n: i64, b: int)
    requires
        env_get(c.params, p) == Some(ValueModel::Number(n)),
        0 <= b < bs.len(),
        exists|j: int| 0 <= j < bs[b].keys.len() && (#[trigger] bs[b].keys[j]).value == int_decimal(n as int),
        forall|b2: int, j: int|
            0 <= b2 < b && 0 <= j < bs[b2].keys.len() ==> (#[trigger] bs[b2].keys[j]).value != int_decimal(
                n as int,
            ),
    ensures
        eval_match(reg, bs, seq![p], c, lang) == eval_segs(reg, bs[b].template, c, lang),
{
    let params = seq![p];
    assert(params.drop_last() =~= Seq::<Seq<char>>::empty());
    assert(params.last() == p);
    let cs = number_candidates(n, lang);
    let resolved = seq![cs];
    assert(match_candidates(params.drop_last(), c.params, lang) == Ok::<Seq<Seq<Seq<char>>>, EvalErrorModel>(
        seq![],
    ));
    assert(match_candidates(params, c.params, lang) == Ok::<Seq<Seq<Seq<char>>>, EvalErrorModel>(resolved)) by {
        assert(Seq::<Seq<Seq<char>>>::empty().push(cs) =~= resolved);
    }
    let e = Seq::<Seq<Seq<char>>>::empty();
    assert(resolved.drop_last() =~= e);
    assert(compound_keys(e) == seq![Seq::<char>::empty()]);
    let pre = seq![Seq::<char>::empty()];
    assert(pre.drop_last() =~= Seq::<Seq<char>>::empty());
    assert(extend_keys(Seq::<Seq<char>>::empty(), cs) == Seq::<Seq<char>>::empty());
    assert(compound_keys(resolved) =~= cs) by {
        assert(compound_keys(resolved) == extend_keys(pre, cs));
        assert(extend_keys(pre, cs) == Seq::<Seq<char>>::empty() + cs.map_values(
            |x: Seq<char>| join_key(pre.last(), x),
        ));
        assert(pre.last().len() == 0);
    }
    let x = int_decimal(n as int);
    assert(cs[0] == x);
    let t = KeyTest::Equal(x);
    let j = choose|j: int| 0 <= j < bs[b].keys.len() && (#[trigger] bs[b].keys[j]).value == x;
    assert(key_passes(bs[b].keys[j], t));
    assert(any_key(bs[b].keys, t));
    assert forall|b2: int| 0 <= b2 < b implies !any_key(#[trigger] bs[b2].keys, t) by {
        if any_key(bs[b2].keys, t) {
            let k = choose|k: int| 0 <= k < bs[b2].keys.len() && #[trigger] key_passes(bs[b2].keys[k], t);
            assert(bs[b2].keys[k].value == x);
        }
    }
    lemma_first_branch_at(bs, t, 0, b);
    assert(exact_branch(bs, cs) == Some(b));
    assert(select_branch(bs, resolved, 1) == Ok::<int, EvalErrorModel>(b));
}

// ---------------------------------------------------------------------------
// Auto-capitalisation
// ---------------------------------------------------------------------------

/// An interpolation whose reference starts with an uppercase letter gets
/// `@cap` in front of the transforms written before the reference, so that
/// `@cap` is applied after all of them: whatever value the reference gives,
/// the interpolation's transforms give the written transforms' result with
/// its first letter capitalised (`{@a Card}` is `@a` applied to `card`, then
/// capitalised). With a lowercase reference the transforms are the written
/// ones.
pub proof fn law_capitalised_reference(s: Seq<char>, p: int, v: ValueModel, env: Seq<(Seq<char>, ValueModel)>, lang: Seq<char>)
    requires
        p_interpolation(s, p) is Some,
    ensures
        ({
            let written = p_transforms(s, skip_ws(s, p + 1)).0;
            let b = p_transforms(s, skip_ws(s, p + 1)).1;
            let seg = p_interpolation(s, p)->Some_0.0;
            &&& seg is Interpolation
            &&& (0 <= b < s.len() && is_ascii_upper(s[b])) ==> {
                &&& seg->Interpolation_transforms == seq![cap_transform()] + written
                &&& apply_transforms_spec(v, written, env, lang) matches Ok(t) ==> apply_transforms_spec(
                    v,
                    seg->Interpolation_transforms,
                    env,
                    lang,
                ) == Ok::<Seq<char>, EvalErrorModel>(cap_spec(t, lang))
            }
            &&& !(0 <= b < s.len() && is_ascii_upper(s[b])) ==> seg->Interpolation_transforms == written
        }),
{
    let written = p_transforms(s, skip_ws(s, p + 1)).0;
    let b = p_transforms(s, skip_ws(s, p + 1)).1;
    let seg = p_interpolation(s, p)->Some_0.0;
    if 0 <= b < s.len() && is_ascii_upper(s[b]) {
        assert(s[b] != '$');
        assert(is_ident_start(s[b]));
        law_universal_transforms(lang);
        let ts = seg->Interpolation_transforms;
        assert(ts == seq![cap_transform()] + written);
        if let Ok(t) = apply_transforms_spec(v, written, env, lang) {
            let capt = seq![cap_transform()];
            assert(capt.drop_last() =~= Seq::<TransformModel>::empty());
            assert(apply_transforms_spec(ValueModel::Str(t), capt, env, lang) == Ok::<Seq<char>, EvalErrorModel>(
                cap_spec(t, lang),
            )) by {
                assert(value_text(ValueModel::Str(t)) == t);
                assert(capt.last() == cap_transform());
                assert(cap_transform().name == "cap"@);
                assert(transform_lookup(capt.last().name, lang) == Some(TransformKind::Cap));
                assert(crate::semantics::transform_context_spec(capt.last().context, env) == Ok::<
                    Option<ValueModel>,
                    EvalErrorModel,
                >(None));
                let r = cap_spec(t, lang);
                assert(transform_spec(TransformKind::Cap, ValueModel::Str(t), None, lang) == Ok::<
                    Seq<char>,
                    EvalErrorModel,
                >(r));
                assert(apply_transforms_spec(ValueModel::Str(r), Seq::<TransformModel>::empty(), env, lang) == Ok::<
                    Seq<char>,
                    EvalErrorModel,
                >(value_text(ValueModel::Str(r))));
                assert(value_text(ValueModel::Str(r)) == r);
            }
            if written.len() > 0 {
                law_transforms_compose(v, capt, written, env, lang);
            } else {
                assert(ts =~= capt);
                assert(t == value_text(v));
            }
        }
    }
}

// ---------------------------------------------------------------------------
// Variant entry keys
// ---------------------------------------------------------------------------

/// Whether `c` may stand in a list of variant keys: a key character (name
/// characters and dots) or a comma.
pub open spec fn is_key_list_char(c: char) -> bool {
    in_class(c, CharClass::Dotted) || c == ','
}

/// The key-list characters of `s[i..j)`, in order.
pub open spec fn key_chars(s: Seq<char>, i: int, j: int) -> Seq<char>
    decreases j - i,
{
    if j <= i {
        seq![]
    } else {
        key_chars(s, i, j - 1) + if is_key_list_char(s[j - 1]) {
            seq![s[j - 1]]
        } else {
            seq![]
        }
    }
}

/// Keys, each preceded by a comma.
pub open spec fn comma_prefixed(ks: Seq<Seq<char>>) -> Seq<char>
    decreases ks.len(),
{
    if ks.len() == 0 {
        seq![]
    } else {
        seq![','] + ks[0] + comma_prefixed(ks.drop_first())
    }
}

proof fn lemma_key_chars_split(s: Seq<char>, i: int, j: int, k: int)
    requires
        i <= j <= k,
    ensures
        key_chars(s, i, k) == key_chars(s, i, j) + key_chars(s, j, k),
    decreases k - j,
{
    if j < k {
        lemma_key_chars_split(s, i, j, k - 1);
    } else {
        assert(key_chars(s, j, k) =~= Seq::<char>::empty());
        assert(key_chars(s, i, j) + Seq::<char>::empty() =~= key_chars(s, i, j));
    }
}

proof fn lemma_key_chars_run(s: Seq<char>, i: int, j: int)
    requires
        0 <= i <= j <= s.len(),
        forall|x: int| i <= x < j ==> in_class(#[trigger] s[x], CharClass::Dotted),
    ensures
        key_chars(s, i, j) == s.subrange(i, j),
    decreases j - i,
{
    if i < j {
        lemma_key_chars_run(s, i, j - 1);
        assert(s.subrange(i, j) =~= s.subrange(i, j - 1) + seq![s[j - 1]]);
    } else {
        assert(s.subrange(i, j) =~= Seq::<char>::empty());
    }
}

proof fn lemma_key_chars_ws(s: Seq<char>, i: int, j: int)
    requires
        0 <= i <= j <= s.len(),
        forall|x: int| i <= x < j ==> is_ascii_ws(#[trigger] s[x]),
    ensures
        key_chars(s, i, j) == Seq::<char>::empty(),
    decreases j - i,
{
    if i < j {
        lemma_key_chars_ws(s, i, j - 1);
        assert(is_ascii_ws(s[j - 1]));
        assert(key_chars(s, i, j) =~= Seq::<char>::empty());
    }
}

/// Skipping separators before the colon at `a` (with no comment there)
/// skips whitespace only and stops at or before the colon.
proof fn lemma_skip_wc_before(s: Seq<char>, i: int, a: int)
    requires
        0 <= i <= a < s.len(),
        s[a] == ':',
        forall|x: int| i <= x < a ==> s[x] != '/',
    ensures
        i <= skip_wc(s, i) <= a,
        forall|x: int| i <= x < skip_wc(s, i) ==> is_ascii_ws(#[trigger] s[x]),
    decreases a - i,
{
    if is_ascii_ws(s[i]) {
        assert(i < a);
        lemma_skip_wc_before(s, i + 1, a);
    }
}

proof fn lemma_run_before(s: Seq<char>, i: int, a: int)
    requires
        0 <= i <= a < s.len(),
        s[a] == ':',
    ensures
        i <= run_end(s, i, CharClass::Dotted) <= a,
        forall|x: int| i <= x < run_end(s, i, CharClass::Dotted) ==> in_class(#[trigger] s[x], CharClass::Dotted),
{
    lemma_run_end(s, i, CharClass::Dotted);
    if run_end(s, i, CharClass::Dotted) > a {
        assert(in_class(s[a], CharClass::Dotted));
    }
}

proof fn lemma_keys_rest(s: Seq<char>, cur: int, a: int)
    requires
        0 <= cur <= a < s.len(),
        s[a] == ':',
        forall|x: int| cur <= x < a ==> s[x] != '/',
    ensures
        cur <= p_variant_keys_rest(s, cur).1 <= a,
        key_chars(s, cur, p_variant_keys_rest(s, cur).1) == comma_prefixed(p_variant_keys_rest(s, cur).0),
    decreases s.len() - cur,
{
    let (rest, f) = p_variant_keys_rest(s, cur);
    lemma_skip_wc_before(s, cur, a);
    let w = skip_wc(s, cur);
    if at(s, w, ',') {
        assert(w < a);
        lemma_skip_wc_before(s, w + 1, a);
        let a1 = skip_wc(s, w + 1);
        lemma_run_before(s, a1, a);
        let b = run_end(s, a1, CharClass::Dotted);
        if b > a1 && cur < b {
            lemma_keys_rest(s, b, a);
            let (rest2, f2) = p_variant_keys_rest(s, b);
            assert(rest == seq![s.subrange(a1, b)] + rest2 && f == f2);
            lemma_key_chars_split(s, cur, w, f);
            lemma_key_chars_split(s, w, w + 1, f);
            lemma_key_chars_split(s, w + 1, a1, f);
            lemma_key_chars_split(s, a1, b, f);
            lemma_key_chars_ws(s, cur, w);
            lemma_key_chars_ws(s, w + 1, a1);
            lemma_key_chars_run(s, a1, b);
            assert(key_chars(s, w, w + 1) =~= seq![',']) by {
                assert(key_chars(s, w, w) =~= Seq::<char>::empty());
            }
            assert(rest.drop_first() =~= rest2);
            assert(comma_prefixed(rest) == seq![','] + s.subrange(a1, b) + comma_prefixed(rest2));
            assert(key_chars(s, cur, f) =~= seq![','] + s.subrange(a1, b) + comma_prefixed(rest2));
        } else {
            assert(rest.len() == 0 && f == cur);
        }
    } else {
        assert(rest.len() == 0 && f == cur);
    }
}

/// The keys of a parsed variant entry are all the keys written before its
/// colon, in order: where no comment stands between the optional `*` and the
/// colon, the key characters there (name characters, dots and commas) are
/// exactly the entry's keys joined by commas (`one, other: "x"` has keys
/// `one` and `other`).
pub proof fn law_variant_entry_keys(s: Seq<char>, p: int, a: int)
    requires
        0 <= p,
        p_variant_entry(s, p) is Some,
        (if at(s, p, '*') { p + 1 } else { p }) <= a < s.len(),
        s[a] == ':',
        forall|x: int| (if at(s, p, '*') { p + 1 } else { p }) <= x < a ==> s[x] != ':' && s[x] != '/',
    ensures
        ({
            let keys = p_variant_entry(s, p)->Some_0.0.keys;
            let q = if at(s, p, '*') { p + 1 } else { p };
            &&& keys.len() >= 1
            &&& key_chars(s, q, a) == keys[0] + comma_prefixed(keys.drop_first())
            &&& p_variant_entry(s, p)->Some_0.0.is_default == at(s, p, '*')
        }),
{
    let q = if at(s, p, '*') { p + 1 } else { p };
    lemma_run_before(s, q, a);
    let e = run_end(s, q, CharClass::Dotted);
    assert(e > q);
    lemma_keys_rest(s, e, a);
    let (rest, f) = p_variant_keys_rest(s, e);
    lemma_skip_wc_before(s, f, a);
    let a2 = skip_wc(s, f);
    assert(at(s, a2, ':'));
    assert(a2 == a);
    let keys = p_variant_entry(s, p)->Some_0.0.keys;
    assert(keys == seq![s.subrange(q, e)] + rest);
    assert(keys.drop_first() =~= rest);
    lemma_key_chars_split(s, q, e, a);
    lemma_key_chars_split(s, e, f, a);
    lemma_key_chars_run(s, q, e);
    lemma_key_chars_ws(s, f, a);
    assert(key_chars(s, q, a) =~= s.subrange(q, e) + comma_prefixed(rest));
}

/// German `@ein` gives the indefinite article of the noun's gender in the
/// case named by the context, a space, and the text: masculine
/// ein/einen/einem/eines, feminine eine/eine/einer/einer, neuter
/// ein/ein/einem/eines. Without a gender tag it is refused.
pub proof fn law_german_indefinite_article(v: ValueModel, case: Seq<char>, lang: Seq<char>)
    ensures
        value_has_tag(v, "masc"@) ==> transform_spec(
            TransformKind::GermanEin,
            v,
            Some(ValueModel::Str(case)),
            lang,
        ) == Ok::<Seq<char>, EvalErrorModel>(
            (if case == "acc"@ {
                "einen"@
            } else if case == "dat"@ {
                "einem"@
            } else if case == "gen"@ {
                "eines"@
            } else {
                "ein"@
            }) + " "@ + value_text(v),
        ),
        !value_has_tag(v, "masc"@) && value_has_tag(v, "fem"@) ==> transform_spec(
            TransformKind::GermanEin,
            v,
            Some(ValueModel::Str(case)),
            lang,
        ) == Ok::<Seq<char>, EvalErrorModel>(
            (if case == "acc"@ {
                "eine"@
            } else if case == "dat"@ {
                "einer"@
            } else if case == "gen"@ {
                "einer"@
            } else {
                "eine"@
            }) + " "@ + value_text(v),
        ),
        !value_has_tag(v, "masc"@) && !value_has_tag(v, "fem"@) && value_has_tag(v, "neut"@) ==> transform_spec(
            TransformKind::GermanEin,
            v,
            Some(ValueModel::Str(case)),
            lang,
        ) == Ok::<Seq<char>, EvalErrorModel>(
            (if case == "acc"@ {
                "ein"@
            } else if case == "dat"@ {
                "einem"@
            } else if case == "gen"@ {
                "eines"@
            } else {
                "ein"@
            }) + " "@ + value_text(v),
        ),
        !value_has_tag(v, "masc"@) && !value_has_tag(v, "fem"@) && !value_has_tag(v, "neut"@) ==> transform_spec(
            TransformKind::GermanEin,
            v,
            Some(ValueModel::Str(case)),
            lang,
        ) is Err,
{
}

/// A `:match` on one parameter bound to a number with no branch keyed by
/// the number itself selects the first branch keyed by its plural category
/// (so `{1: A, other: B}` gives `B` for 5 in English).
pub proof fn law_match_plural_category(reg: Seq<PhraseDefinitionModel>, bs: Seq<MatchBranchModel>, p: Seq<char>, c: CtxModel, lang: Seq<char>, n: i64, b: int)
    requires
        env_get(c.params, p) == Some(ValueModel::Number(n)),
        0 <= b < bs.len(),
        exists|j: int| 0 <= j < bs[b].keys.len() && (#[trigger] bs[b].keys[j]).value == plural_name(lang, n),
        forall|b2: int, j: int|
            0 <= b2 < b && 0 <= j < bs[b2].keys.len() ==> (#[trigger] bs[b2].keys[j]).value != plural_name(lang, n),
        forall|b2: int, j: int|
            0 <= b2 < bs.len() && 0 <= j < bs[b2].keys.len() ==> (#[trigger] bs[b2].keys[j]).value != int_decimal(
                n as int,
            ),
    ensures
        eval_match(reg, bs, seq![p], c, lang) == eval_segs(reg, bs[b].template, c, lang),
{
    let params = seq![p];
    assert(params.drop_last() =~= Seq::<Seq<char>>::empty());
    assert(params.last() == p);
    let cs = number_candidates(n, lang);
    let resolved = seq![cs];
    assert(match_candidates(params.drop_last(), c.params, lang) == Ok::<Seq<Seq<Seq<char>>>, EvalErrorModel>(
        seq![],
    ));
    assert(match_candidates(params, c.params, lang) == Ok::<Seq<Seq<Seq<char>>>, EvalErrorModel>(resolved)) by {
        assert(Seq::<Seq<Seq<char>>>::empty().push(cs) =~= resolved);
    }
    let e = Seq::<Seq<Seq<char>>>::empty();
    assert(resolved.drop_last() =~= e);
    assert(compound_keys(e) == seq![Seq::<char>::empty()]);
    let pre = seq![Seq::<char>::empty()];
    assert(pre.drop_last() =~= Seq::<Seq<char>>::empty());
    assert(extend_keys(Seq::<Seq<char>>::empty(), cs) == Seq::<Seq<char>>::empty());
    assert(compound_keys(resolved) =~= cs) by {
        assert(compound_keys(resolved) == extend_keys(pre, cs));
        assert(extend_keys(pre, cs) == Seq::<Seq<char>>::empty() + cs.map_values(
            |x: Seq<char>| join_key(pre.last(), x),
        ));
        assert(pre.last().len() == 0);
    }
    let x = int_decimal(n as int);
    let y = plural_name(lang, n);
    let tx = KeyTest::Equal(x);
    let ty = KeyTest::Equal(y);
    let j = choose|j: int| 0 <= j < bs[b].keys.len() && (#[trigger] bs[b].keys[j]).value == y;
    assert(key_passes(bs[b].keys[j], ty));
    assert(x != y) by {
        assert(bs[b].keys[j].value != x);
    }
    assert forall|b2: int| 0 <= b2 < b implies !any_key(#[trigger] bs[b2].keys, ty) by {
        if any_key(bs[b2].keys, ty) {
            let k = choose|k: int| 0 <= k < bs[b2].keys.len() && #[trigger] key_passes(bs[b2].keys[k], ty);
            assert(bs[b2].keys[k].value == y);
        }
    }
    lemma_first_branch_at(bs, ty, 0, b);
    lemma_first_branch_none(bs, tx, 0);
    assert(cs == seq![x, y]);
    assert(cs.drop_first() =~= seq![y]);
    assert(exact_branch(bs, cs.drop_first()) == Some(b));
    assert(exact_branch(bs, cs) == Some(b));
    assert(select_branch(bs, resolved, 1) == Ok::<int, EvalErrorModel>(b));
}

proof fn lemma_first_branch_none(bs: Seq<MatchBranchModel>, t: KeyTest, i: int)
    requires
        0 <= i,
        forall|b2: int| i <= b2 < bs.len() ==> !any_key(#[trigger] bs[b2].keys, t),
    ensures
        first_branch(bs, t, i) is None,
    decreases bs.len() - i,
{
    if i < bs.len() {
        assert(!any_key(bs[i].keys, t));
        lemma_first_branch_none(bs, t, i + 1);
    }
}

} // verus!
