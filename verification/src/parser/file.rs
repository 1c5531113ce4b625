//! The grammar of `.rlf` files: a sequence of phrase definitions
//! `name(params)? = tags? :from? :match? body ;`, with whitespace and `//`
//! comments between tokens.
use vstd::prelude::*;
use crate::text::{is_ascii_lower, join, push_char};
use crate::ast::{
    SegmentModel, MatchKeyModel, MatchBranchModel, VariantEntryBodyModel, VariantEntryModel,
    PhraseBodyModel, PhraseDefinitionModel, Template, MatchKey, MatchBranch, VariantEntryBody,
    VariantEntry, PhraseBody, PhraseDefinition, DefinitionKind, strings_view, match_keys_view,
    branches_view, entries_model, definitions_view,
};
use crate::types::{Tag, tags_view};
use crate::errors::ParseError;
use crate::parser::lex::{
    CharClass, run1, at, skip_wc, lemma_skip_wc, scan1, char_at, skip_ws_and_comments, position_of,
    calculate_position,
};
use crate::parser::template::{
    p_segments, merge_literals, parse_segments, substring, unexpected_message,
    unexpected_char_message,
};
use crate::parser::validate::{validate_defs, validate_definitions};

verus! {

// ---------------------------------------------------------------------------
// Names, parameters, tags, modifiers
// ---------------------------------------------------------------------------

/// A snake_case identifier: a run of letters, digits and `_` whose first
/// character is a lowercase ASCII letter.
pub open spec fn p_snake(s: Seq<char>, p: int) -> Option<int> {
    match run1(s, p, CharClass::Ident) {
        Some(e) => if is_ascii_lower(s[p]) {
            Some(e)
        } else {
            None
        },
        None => None,
    }
}

/// A parameter name `$name`, read without the `$`.
pub open spec fn p_param_name(s: Seq<char>, p: int) -> Option<(Seq<char>, int)> {
    if at(s, p, '$') {
        match run1(s, p + 1, CharClass::Ident) {
            Some(e) => Some((s.subrange(p + 1, e), e)),
            None => None,
        }
    } else {
        None
    }
}

/// The separator of list items: a comma between optional whitespace and
/// comments.
pub open spec fn sep_wc(s: Seq<char>, cur: int) -> Option<int> {
    let w = skip_wc(s, cur);
    if at(s, w, ',') {
        Some(skip_wc(s, w + 1))
    } else {
        None
    }
}

/// Further parameter names after separators.
pub open spec fn p_params_rest(s: Seq<char>, cur: int) -> (Seq<Seq<char>>, int)
    decreases s.len() - cur,
{
    match sep_wc(s, cur) {
        Some(a) => match p_param_name(s, skip_wc(s, a)) {
            Some((x, b)) => if cur < b <= s.len() {
                let (rest, f) = p_params_rest(s, b);
                (seq![x] + rest, f)
            } else {
                (seq![], cur)
            },
            None => (seq![], cur),
        },
        None => (seq![], cur),
    }
}

/// Parameter names separated by commas; `None` where not even one is there.
pub open spec fn p_params1(s: Seq<char>, p: int) -> Option<(Seq<Seq<char>>, int)> {
    match p_param_name(s, skip_wc(s, p)) {
        Some((x, e)) => {
            let (rest, f) = p_params_rest(s, e);
            Some((seq![x] + rest, f))
        },
        None => None,
    }
}

/// Parameter names inside brackets closing with `)`.
pub open spec fn p_params_close(s: Seq<char>, items: Seq<Seq<char>>, b: int) -> Option<(Seq<Seq<char>>, int)> {
    let c = skip_wc(s, b);
    if at(s, c, ')') {
        Some((items, c + 1))
    } else {
        None
    }
}

/// A parameter list `($a, $b)`, possibly empty.
pub open spec fn p_parameter_list(s: Seq<char>, p: int) -> Option<(Seq<Seq<char>>, int)> {
    if at(s, p, '(') {
        match p_params1(s, p + 1) {
            Some((items, b)) => p_params_close(s, items, b),
            None => p_params_close(s, seq![], p + 1),
        }
    } else {
        None
    }
}

/// The keyword `:from` at `p`.
pub open spec fn at_from(s: Seq<char>, p: int) -> bool {
    at(s, p, ':') && at(s, p + 1, 'f') && at(s, p + 2, 'r') && at(s, p + 3, 'o') && at(s, p + 4, 'm')
}

/// The keyword `:match` at `p`.
pub open spec fn at_match(s: Seq<char>, p: int) -> bool {
    at(s, p, ':') && at(s, p + 1, 'm') && at(s, p + 2, 'a') && at(s, p + 3, 't') && at(s, p + 4, 'c')
        && at(s, p + 5, 'h')
}

/// `:from($param)`.
pub open spec fn p_from_modifier(s: Seq<char>, p: int) -> Option<(Seq<char>, int)> {
    if at_from(s, p) && at(s, p + 5, '(') {
        match p_param_name(s, p + 6) {
            Some((x, e)) => if at(s, e, ')') {
                Some((x, e + 1))
            } else {
                None
            },
            None => None,
        }
    } else {
        None
    }
}

/// `:match($a, ...)` with at least one parameter.
pub open spec fn p_match_modifier(s: Seq<char>, p: int) -> Option<(Seq<Seq<char>>, int)> {
    if at_match(s, p) && at(s, p + 6, '(') {
        match p_params1(s, p + 7) {
            Some((items, b)) => p_params_close(s, items, b),
            None => None,
        }
    } else {
        None
    }
}

pub open spec fn is_from_word(n: Seq<char>) -> bool {
    n == seq!['f', 'r', 'o', 'm']
}

pub open spec fn is_match_word(n: Seq<char>) -> bool {
    n == seq!['m', 'a', 't', 'c', 'h']
}

/// A tag `:name`, where the name is neither `from` nor `match`.
pub open spec fn p_tag(s: Seq<char>, p: int) -> Option<(Seq<char>, int)> {
    if at(s, p, ':') {
        match run1(s, p + 1, CharClass::Ident) {
            Some(e) => if !is_from_word(s.subrange(p + 1, e)) && !is_match_word(
                s.subrange(p + 1, e),
            ) {
                Some((s.subrange(p + 1, e), e))
            } else {
                None
            },
            None => None,
        }
    } else {
        None
    }
}

/// Tags, each followed by whitespace and comments.
pub open spec fn p_tags(s: Seq<char>, p: int) -> (Seq<Seq<char>>, int)
    decreases s.len() - p,
{
    match p_tag(s, p) {
        Some((x, e)) => {
            let f = skip_wc(s, e);
            if p < f <= s.len() {
                let (rest, g) = p_tags(s, f);
                (seq![x] + rest, g)
            } else {
                (seq![], p)
            }
        },
        None => (seq![], p),
    }
}

// ---------------------------------------------------------------------------
// Template strings and match blocks
// ---------------------------------------------------------------------------

/// A template string `"..."`.
pub open spec fn p_template_string(s: Seq<char>, p: int) -> Option<(Seq<SegmentModel>, int)> {
    if at(s, p, '"') {
        let (segs, e) = p_segments(s, p + 1, true);
        if at(s, e, '"') {
            Some((merge_literals(segs), e + 1))
        } else {
            None
        }
    } else {
        None
    }
}

/// Further dot-separated components of a match key, each with its own
/// optional `*`.
pub open spec fn p_key_more(s: Seq<char>, c: int) -> Option<(Seq<Seq<char>>, Seq<bool>, int)>
    decreases s.len() - c,
{
    if at(s, c, '.') {
        let star = at(s, c + 1, '*');
        let q = if star {
            c + 2
        } else {
            c + 1
        };
        match run1(s, q, CharClass::Ident) {
            Some(e) => if c < e <= s.len() {
                match p_key_more(s, e) {
                    Some((ps, ds, f)) => Some((seq![s.subrange(q, e)] + ps, seq![star] + ds, f)),
                    None => None,
                }
            } else {
                None
            },
            None => None,
        }
    } else {
        Some((seq![], seq![], c))
    }
}

/// A match key with exactly `n` dot-separated components.
pub open spec fn p_match_key(s: Seq<char>, p: int, n: nat) -> Option<(MatchKeyModel, int)> {
    let star = at(s, p, '*');
    let q = if star {
        p + 1
    } else {
        p
    };
    match run1(s, q, CharClass::Ident) {
        Some(c) => match p_key_more(s, c) {
            Some((ps, ds, f)) => {
                let parts = seq![s.subrange(q, c)] + ps;
                if parts.len() == n {
                    Some(
                        (
                            MatchKeyModel { value: join(parts, "."@), default_dimensions: seq![star] + ds },
                            f,
                        ),
                    )
                } else {
                    None
                }
            },
            None => None,
        },
        None => None,
    }
}

pub open spec fn p_match_keys_rest(s: Seq<char>, cur: int, n: nat) -> (Seq<MatchKeyModel>, int)
    decreases s.len() - cur,
{
    match sep_wc(s, cur) {
        Some(a) => match p_match_key(s, a, n) {
            Some((x, b)) => if cur < b <= s.len() {
                let (rest, f) = p_match_keys_rest(s, b, n);
                (seq![x] + rest, f)
            } else {
                (seq![], cur)
            },
            None => (seq![], cur),
        },
        None => (seq![], cur),
    }
}

pub open spec fn p_match_keys(s: Seq<char>, p: int, n: nat) -> Option<(Seq<MatchKeyModel>, int)> {
    match p_match_key(s, p, n) {
        Some((x, e)) => {
            let (rest, f) = p_match_keys_rest(s, e, n);
            Some((seq![x] + rest, f))
        },
        None => None,
    }
}

/// A match branch `keys: "template"`.
pub open spec fn p_match_entry(s: Seq<char>, p: int, n: nat) -> Option<(MatchBranchModel, int)> {
    match p_match_keys(s, p, n) {
        Some((keys, e)) => {
            let a = skip_wc(s, e);
            if at(s, a, ':') {
                match p_template_string(s, skip_wc(s, a + 1)) {
                    Some((t, f)) => Some((MatchBranchModel { keys, template: t }, f)),
                    None => None,
                }
            } else {
                None
            }
        },
        None => None,
    }
}

pub open spec fn p_match_entries_rest(s: Seq<char>, cur: int, n: nat) -> (Seq<MatchBranchModel>, int)
    decreases s.len() - cur,
{
    match sep_wc(s, cur) {
        Some(a) => match p_match_entry(s, a, n) {
            Some((x, b)) => if cur < b <= s.len() {
                let (rest, f) = p_match_entries_rest(s, b, n);
                (seq![x] + rest, f)
            } else {
                (seq![], cur)
            },
            None => (seq![], cur),
        },
        None => (seq![], cur),
    }
}

/// The end of an optional trailing comma.
pub open spec fn trailing_comma(s: Seq<char>, e: int) -> int {
    if at(s, skip_wc(s, e), ',') {
        skip_wc(s, e) + 1
    } else {
        e
    }
}

/// Match branches separated by commas, with an optional trailing comma.
pub open spec fn p_match_entries(s: Seq<char>, p: int, n: nat) -> (Seq<MatchBranchModel>, int) {
    match p_match_entry(s, p, n) {
        Some((x, e)) => {
            let (rest, f) = p_match_entries_rest(s, e, n);
            (seq![x] + rest, trailing_comma(s, f))
        },
        None => (seq![], trailing_comma(s, p)),
    }
}

/// A match block `{ branches }` for `n` match parameters.
pub open spec fn p_match_block(s: Seq<char>, p: int, n: nat) -> Option<(Seq<MatchBranchModel>, int)> {
    if at(s, p, '{') {
        let (bs, e) = p_match_entries(s, skip_wc(s, p + 1), n);
        let c = skip_wc(s, e);
        if at(s, c, '}') {
            Some((bs, c + 1))
        } else {
            None
        }
    } else {
        None
    }
}

// ---------------------------------------------------------------------------
// Variant blocks
// ---------------------------------------------------------------------------

pub open spec fn p_variant_keys_rest(s: Seq<char>, cur: int) -> (Seq<Seq<char>>, int)
    decreases s.len() - cur,
{
    match sep_wc(s, cur) {
        Some(a) => match run1(s, a, CharClass::Dotted) {
            Some(b) => if cur < b <= s.len() {
                let (rest, f) = p_variant_keys_rest(s, b);
                (seq![s.subrange(a, b)] + rest, f)
            } else {
                (seq![], cur)
            },
            None => (seq![], cur),
        },
        None => (seq![], cur),
    }
}

/// A variant entry `*? keys: "template"`.
pub open spec fn p_variant_entry(s: Seq<char>, p: int) -> Option<(VariantEntryModel, int)> {
    let star = at(s, p, '*');
    let q = if star {
        p + 1
    } else {
        p
    };
    match run1(s, q, CharClass::Dotted) {
        Some(e) => {
            let (rest, f) = p_variant_keys_rest(s, e);
            let keys = seq![s.subrange(q, e)] + rest;
            let a = skip_wc(s, f);
            if at(s, a, ':') {
                match p_template_string(s, skip_wc(s, a + 1)) {
                    Some((t, g)) => Some(
                        (
                            VariantEntryModel {
                                keys,
                                body: VariantEntryBodyModel::Template(t),
                                is_default: star,
                            },
                            g,
                        ),
                    ),
                    None => None,
                }
            } else {
                None
            }
        },
        None => None,
    }
}

pub open spec fn p_variant_entries_rest(s: Seq<char>, cur: int) -> (Seq<VariantEntryModel>, int)
    decreases s.len() - cur,
{
    match sep_wc(s, cur) {
        Some(a) => match p_variant_entry(s, a) {
            Some((x, b)) => if cur < b <= s.len() {
                let (rest, f) = p_variant_entries_rest(s, b);
                (seq![x] + rest, f)
            } else {
                (seq![], cur)
            },
            None => (seq![], cur),
        },
        None => (seq![], cur),
    }
}

pub open spec fn p_variant_entries(s: Seq<char>, p: int) -> (Seq<VariantEntryModel>, int) {
    match p_variant_entry(s, p) {
        Some((x, e)) => {
            let (rest, f) = p_variant_entries_rest(s, e);
            (seq![x] + rest, trailing_comma(s, f))
        },
        None => (seq![], trailing_comma(s, p)),
    }
}

/// A variant block `{ entries }`.
pub open spec fn p_variant_block(s: Seq<char>, p: int) -> Option<(Seq<VariantEntryModel>, int)> {
    if at(s, p, '{') {
        let (es, e) = p_variant_entries(s, skip_wc(s, p + 1));
        let c = skip_wc(s, e);
        if at(s, c, '}') {
            Some((es, c + 1))
        } else {
            None
        }
    } else {
        None
    }
}

/// The body of a definition without `:match`: a variant block, else a
/// template string.
pub open spec fn p_phrase_body(s: Seq<char>, p: int) -> Option<(PhraseBodyModel, int)> {
    match p_variant_block(s, p) {
        Some((es, e)) => Some((PhraseBodyModel::Variants(es), e)),
        None => match p_template_string(s, p) {
            Some((t, e)) => Some((PhraseBodyModel::Simple(t), e)),
            None => None,
        },
    }
}

// ---------------------------------------------------------------------------
// Definitions
// ---------------------------------------------------------------------------

/// An optional `:from($p)` followed by whitespace and comments.
pub open spec fn opt_from(s: Seq<char>, p: int) -> (Option<Seq<char>>, int) {
    match p_from_modifier(s, p) {
        Some((x, e)) => (Some(x), skip_wc(s, e)),
        None => (None, p),
    }
}

/// An optional `:match(...)` followed by whitespace and comments.
pub open spec fn opt_match(s: Seq<char>, p: int) -> (Seq<Seq<char>>, int) {
    match p_match_modifier(s, p) {
        Some((x, e)) => (x, skip_wc(s, e)),
        None => (seq![], p),
    }
}

/// The body, whitespace and the closing `;` of a definition.
pub open spec fn p_def_end(s: Seq<char>, h: int, match_params: Seq<Seq<char>>) -> Option<(PhraseBodyModel, int)> {
    let body = if match_params.len() > 0 {
        match p_match_block(s, h, match_params.len()) {
            Some((bs, e)) => Some((PhraseBodyModel::Match(bs), e)),
            None => None,
        }
    } else {
        p_phrase_body(s, h)
    };
    match body {
        Some((b, i)) => {
            let j = skip_wc(s, i);
            if at(s, j, ';') {
                Some((b, j + 1))
            } else {
                None
            }
        },
        None => None,
    }
}

/// A phrase definition. `:from` and `:match` may come in either order; a
/// definition with parameters is a phrase, one without is a term.
pub open spec fn p_definition(s: Seq<char>, p: int) -> Option<(PhraseDefinitionModel, int)> {
    match p_snake(s, p) {
        Some(n) => {
            let a = skip_wc(s, n);
            let (params_opt, b) = match p_parameter_list(s, a) {
                Some((ps, e)) => (Some(ps), e),
                None => (None, a),
            };
            let has_empty_parens = match params_opt {
                Some(ps) => ps.len() == 0,
                None => false,
            };
            let parameters = match params_opt {
                Some(ps) => ps,
                None => seq![],
            };
            let c = skip_wc(s, b);
            if at(s, c, '=') {
                let (tags, e) = p_tags(s, skip_wc(s, c + 1));
                let (fp1, f) = opt_from(s, e);
                let (match_params, g) = opt_match(s, f);
                let (from_param, h) = if fp1 is None {
                    opt_from(s, g)
                } else {
                    (fp1, g)
                };
                match p_def_end(s, h, match_params) {
                    Some((body, j)) => Some(
                        (
                            PhraseDefinitionModel {
                                is_phrase: parameters.len() > 0,
                                name: s.subrange(p, n),
                                parameters,
                                tags,
                                from_param,
                                match_params,
                                body,
                                has_empty_parens,
                            },
                            j,
                        ),
                    ),
                    None => None,
                }
            } else {
                None
            }
        },
        None => None,
    }
}

/// Definitions, each followed by whitespace and comments.
pub open spec fn p_definitions(s: Seq<char>, p: int) -> (Seq<PhraseDefinitionModel>, int)
    decreases s.len() - p,
{
    match p_definition(s, p) {
        Some((x, e)) => {
            let f = skip_wc(s, e);
            if p < f <= s.len() {
                let (rest, g) = p_definitions(s, f);
                (seq![x] + rest, g)
            } else {
                (seq![], p)
            }
        },
        None => (seq![], p),
    }
}

/// What parsing a file gives: its definitions where every character was read
/// and they pass validation; a syntax error at the first character that was
/// not read; or the validation error (at line 0, column 0).
pub open spec fn file_result(s: Seq<char>) -> Result<Seq<PhraseDefinitionModel>, (nat, nat, Seq<char>)> {
    let (defs, e) = p_definitions(s, skip_wc(s, 0));
    let f = skip_wc(s, e);
    if f == s.len() {
        match validate_defs(defs) {
            None => Ok(defs),
            Some(m) => Err((0, 0, m)),
        }
    } else {
        Err((position_of(s, f).0, position_of(s, f).1, unexpected_message(s[f])))
    }
}

// ---------------------------------------------------------------------------
// Parsing
// ---------------------------------------------------------------------------

fn parse_snake(s: &Vec<char>, p: usize) -> (r: Option<usize>)
    requires
        p <= s.len(),
    ensures
        match r {
            Some(e) => p_snake(s@, p as int) == Some(e as int) && p < e <= s.len(),
            None => p_snake(s@, p as int) is None,
        },
{
    match scan1(s, p, CharClass::Ident) {
        Some(e) => if 'a' <= s[p] && s[p] <= 'z' {
            Some(e)
        } else {
            None
        },
        None => None,
    }
}

fn parse_param_name(s: &Vec<char>, p: usize) -> (r: Option<(String, usize)>)
    requires
        p <= s.len(),
    ensures
        match r {
            Some((x, e)) => p_param_name(s@, p as int) == Some((x@, e as int)) && p < e <= s.len(),
            None => p_param_name(s@, p as int) is None,
        },
{
    if !char_at(s, p, '$') {
        return None;
    }
    match scan1(s, p + 1, CharClass::Ident) {
        Some(e) => Some((substring(s, p + 1, e), e)),
        None => None,
    }
}

fn parse_sep(s: &Vec<char>, cur: usize) -> (r: Option<usize>)
    requires
        cur <= s.len(),
    ensures
        match r {
            Some(a) => sep_wc(s@, cur as int) == Some(a as int) && cur < a <= s.len(),
            None => sep_wc(s@, cur as int) is None,
        },
{
    let w = skip_ws_and_comments(s, cur);
    if char_at(s, w, ',') {
        Some(skip_ws_and_comments(s, w + 1))
    } else {
        None
    }
}

fn parse_params1(s: &Vec<char>, p: usize) -> (r: Option<(Vec<String>, usize)>)
    requires
        p <= s.len(),
    ensures
        match r {
            Some((v, e)) => p_params1(s@, p as int) == Some((strings_view(v@), e as int)) && p < e
                <= s.len(),
            None => p_params1(s@, p as int) is None,
        },
{
    let a = skip_ws_and_comments(s, p);
    let (x, e) = match parse_param_name(s, a) {
        Some(x) => x,
        None => return None,
    };
    let mut v: Vec<String> = Vec::new();
    let ghost xm = x@;
    v.push(x);
    assert(strings_view(v@) =~= seq![xm]);
    let mut cur = e;
    loop
        invariant
            p < cur <= s.len(),
            p_params1(s@, p as int) == Some(
                (strings_view(v@) + p_params_rest(s@, cur as int).0, p_params_rest(s@, cur as int).1),
            ),
        decreases s.len() - cur,
    {
        let a = match parse_sep(s, cur) {
            Some(a) => a,
            None => {
                assert(strings_view(v@) + seq![] =~= strings_view(v@));
                return Some((v, cur));
            },
        };
        let b0 = skip_ws_and_comments(s, a);
        match parse_param_name(s, b0) {
            Some((y, b)) => {
                let ghost ym = y@;
                let ghost before = strings_view(v@);
                v.push(y);
                assert(strings_view(v@) =~= before.push(ym));
                assert(before + p_params_rest(s@, cur as int).0 =~= strings_view(v@) + p_params_rest(
                    s@,
                    b as int,
                ).0);
                cur = b;
            },
            None => {
                assert(strings_view(v@) + seq![] =~= strings_view(v@));
                return Some((v, cur));
            },
        }
    }
}

fn parse_params_close(s: &Vec<char>, items: Vec<String>, b: usize) -> (r: Option<(Vec<String>, usize)>)
    requires
        b <= s.len(),
    ensures
        match r {
            Some((v, e)) => p_params_close(s@, strings_view(items@), b as int) == Some(
                (strings_view(v@), e as int),
            ) && b < e <= s.len(),
            None => p_params_close(s@, strings_view(items@), b as int) is None,
        },
{
    let c = skip_ws_and_comments(s, b);
    if char_at(s, c, ')') {
        Some((items, c + 1))
    } else {
        None
    }
}

fn parse_parameter_list(s: &Vec<char>, p: usize) -> (r: Option<(Vec<String>, usize)>)
    requires
        p <= s.len(),
    ensures
        match r {
            Some((v, e)) => p_parameter_list(s@, p as int) == Some((strings_view(v@), e as int))
                && p < e <= s.len(),
            None => p_parameter_list(s@, p as int) is None,
        },
{
    if !char_at(s, p, '(') {
        return None;
    }
    match parse_params1(s, p + 1) {
        Some((items, b)) => parse_params_close(s, items, b),
        None => {
            let empty: Vec<String> = Vec::new();
            assert(strings_view(empty@) =~= seq![]);
            parse_params_close(s, empty, p + 1)
        },
    }
}

fn parse_from_modifier(s: &Vec<char>, p: usize) -> (r: Option<(String, usize)>)
    requires
        p <= s.len(),
    ensures
        match r {
            Some((x, e)) => p_from_modifier(s@, p as int) == Some((x@, e as int)) && p < e
                <= s.len(),
            None => p_from_modifier(s@, p as int) is None,
        },
{
    if !(char_at(s, p, ':') && char_at(s, p + 1, 'f') && char_at(s, p + 2, 'r') && char_at(
        s,
        p + 3,
        'o',
    ) && char_at(s, p + 4, 'm') && char_at(s, p + 5, '(')) {
        return None;
    }
    match parse_param_name(s, p + 6) {
        Some((x, e)) => if char_at(s, e, ')') {
            Some((x, e + 1))
        } else {
            None
        },
        None => None,
    }
}

fn parse_match_modifier(s: &Vec<char>, p: usize) -> (r: Option<(Vec<String>, usize)>)
    requires
        p <= s.len(),
    ensures
        match r {
            Some((v, e)) => p_match_modifier(s@, p as int) == Some((strings_view(v@), e as int))
                && p < e <= s.len(),
            None => p_match_modifier(s@, p as int) is None,
        },
{
    if !(char_at(s, p, ':') && char_at(s, p + 1, 'm') && char_at(s, p + 2, 'a') && char_at(
        s,
        p + 3,
        't',
    ) && char_at(s, p + 4, 'c') && char_at(s, p + 5, 'h') && char_at(s, p + 6, '(')) {
        return None;
    }
    match parse_params1(s, p + 7) {
        Some((items, b)) => parse_params_close(s, items, b),
        None => None,
    }
}

fn parse_tag(s: &Vec<char>, p: usize) -> (r: Option<(Tag, usize)>)
    requires
        p <= s.len(),
    ensures
        match r {
            Some((x, e)) => p_tag(s@, p as int) == Some((x@, e as int)) && p < e <= s.len(),
            None => p_tag(s@, p as int) is None,
        },
{
    if !char_at(s, p, ':') {
        return None;
    }
    let e = match scan1(s, p + 1, CharClass::Ident) {
        Some(e) => e,
        None => return None,
    };
    let ghost n = s@.subrange(p + 1, e as int);
    let is_from = e - (p + 1) == 4 && s[p + 1] == 'f' && s[p + 2] == 'r' && s[p + 3] == 'o' && s[p
        + 4] == 'm';
    let is_match = e - (p + 1) == 5 && s[p + 1] == 'm' && s[p + 2] == 'a' && s[p + 3] == 't' && s[p
        + 4] == 'c' && s[p + 5] == 'h';
    assert(is_from == is_from_word(n)) by {
        if is_from_word(n) {
            assert(n.len() == 4);
            assert(n[0] == s@[p + 1] && n[1] == s@[p + 2] && n[2] == s@[p + 3] && n[3] == s@[p + 4]);
        }
        if is_from {
            assert(n =~= seq!['f', 'r', 'o', 'm']);
        }
    }
    assert(is_match == is_match_word(n)) by {
        if is_match_word(n) {
            assert(n.len() == 5);
            assert(n[0] == s@[p + 1] && n[1] == s@[p + 2] && n[2] == s@[p + 3] && n[3] == s@[p + 4]
                && n[4] == s@[p + 5]);
        }
        if is_match {
            assert(n =~= seq!['m', 'a', 't', 'c', 'h']);
        }
    }
    if is_from || is_match {
        return None;
    }
    Some((Tag(substring(s, p + 1, e)), e))
}

fn parse_tags(s: &Vec<char>, p: usize) -> (r: (Vec<Tag>, usize))
    requires
        p <= s.len(),
    ensures
        p_tags(s@, p as int) == (tags_view(r.0@), r.1 as int),
        p <= r.1 <= s.len(),
{
    let mut v: Vec<Tag> = Vec::new();
    let mut i = p;
    loop
        invariant
            p <= i <= s.len(),
            p_tags(s@, p as int) == (tags_view(v@) + p_tags(s@, i as int).0, p_tags(s@, i as int).1),
        decreases s.len() - i,
    {
        match parse_tag(s, i) {
            Some((x, e)) => {
                let f = skip_ws_and_comments(s, e);
                let ghost xm = x@;
                let ghost before = tags_view(v@);
                v.push(x);
                assert(tags_view(v@) =~= before.push(xm));
                assert(before + p_tags(s@, i as int).0 =~= tags_view(v@) + p_tags(s@, f as int).0);
                i = f;
            },
            None => {
                assert(tags_view(v@) + seq![] =~= tags_view(v@));
                return (v, i);
            },
        }
    }
}

fn parse_template_string(s: &Vec<char>, p: usize) -> (r: Option<(Template, usize)>)
    requires
        p <= s.len(),
    ensures
        match r {
            Some((t, e)) => p_template_string(s@, p as int) == Some((t@, e as int)) && p < e
                <= s.len(),
            None => p_template_string(s@, p as int) is None,
        },
{
    if !char_at(s, p, '"') {
        return None;
    }
    let (segments, e) = parse_segments(s, p + 1, true);
    if char_at(s, e, '"') {
        Some((Template { segments }, e + 1))
    } else {
        None
    }
}

fn parse_key_more(s: &Vec<char>, c: usize) -> (r: Option<(Vec<String>, Vec<bool>, usize)>)
    requires
        c <= s.len(),
    ensures
        match r {
            Some((ps, ds, f)) => p_key_more(s@, c as int) == Some((strings_view(ps@), ds@, f as int))
                && c <= f <= s.len(),
            None => p_key_more(s@, c as int) is None,
        },
{
    let mut ps: Vec<String> = Vec::new();
    let mut ds: Vec<bool> = Vec::new();
    let mut i = c;
    loop
        invariant
            c <= i <= s.len(),
            p_key_more(s@, c as int) == match p_key_more(s@, i as int) {
                Some((a, b, f)) => Some((strings_view(ps@) + a, ds@ + b, f)),
                None => None,
            },
        decreases s.len() - i,
    {
        if !char_at(s, i, '.') {
            assert(strings_view(ps@) + seq![] =~= strings_view(ps@));
            assert(ds@ + seq![] =~= ds@);
            return Some((ps, ds, i));
        }
        let star = char_at(s, i + 1, '*');
        let q = if star {
            i + 2
        } else {
            i + 1
        };
        let e = match scan1(s, q, CharClass::Ident) {
            Some(e) => e,
            None => return None,
        };
        let part = substring(s, q, e);
        let ghost pm = part@;
        let ghost ps0 = strings_view(ps@);
        let ghost ds0 = ds@;
        ps.push(part);
        ds.push(star);
        proof {
            assert(strings_view(ps@) =~= ps0.push(pm));
            match p_key_more(s@, e as int) {
                Some((a, b, f)) => {
                    assert(ps0 + (seq![pm] + a) =~= strings_view(ps@) + a);
                    assert(ds0 + (seq![star] + b) =~= ds@ + b);
                },
                None => {},
            }
        }
        i = e;
    }
}

fn parse_match_key(s: &Vec<char>, p: usize, n: usize) -> (r: Option<(MatchKey, usize)>)
    requires
        p <= s.len(),
    ensures
        match r {
            Some((x, e)) => p_match_key(s@, p as int, n as nat) == Some((x@, e as int)) && p < e
                <= s.len(),
            None => p_match_key(s@, p as int, n as nat) is None,
        },
{
    let star = char_at(s, p, '*');
    let q = if star {
        p + 1
    } else {
        p
    };
    let c = match scan1(s, q, CharClass::Ident) {
        Some(c) => c,
        None => return None,
    };
    let (more, ds, f) = match parse_key_more(s, c) {
        Some(x) => x,
        None => return None,
    };
    let mut parts: Vec<String> = Vec::new();
    parts.push(substring(s, q, c));
    let mut k: usize = 0;
    let ghost first = s@.subrange(q as int, c as int);
    while k < more.len()
        invariant
            k <= more.len(),
            parts.len() == k + 1,
            strings_view(parts@) =~= seq![first] + strings_view(more@).take(k as int),
        decreases more.len() - k,
    {
        let x = crate::text::copy_string(&more[k]);
        let ghost before = strings_view(parts@);
        parts.push(x);
        assert(strings_view(more@).take(k as int + 1) =~= strings_view(more@).take(k as int).push(
            more@[k as int]@,
        ));
        assert(strings_view(parts@) =~= before.push(more@[k as int]@));
        k = k + 1;
    }
    assert(strings_view(more@).take(k as int) =~= strings_view(more@));
    if parts.len() != n {
        return None;
    }
    let mut dims: Vec<bool> = Vec::new();
    dims.push(star);
    let mut j: usize = 0;
    while j < ds.len()
        invariant
            j <= ds.len(),
            dims@ =~= seq![star] + ds@.take(j as int),
        decreases ds.len() - j,
    {
        dims.push(ds[j]);
        j = j + 1;
    }
    assert(ds@.take(j as int) =~= ds@);
    let value = crate::errors::join_strings(&parts, ".");
    Some((MatchKey { value, default_dimensions: dims }, f))
}

fn parse_match_keys(s: &Vec<char>, p: usize, n: usize) -> (r: Option<(Vec<MatchKey>, usize)>)
    requires
        p <= s.len(),
    ensures
        match r {
            Some((v, e)) => p_match_keys(s@, p as int, n as nat) == Some(
                (match_keys_view(v@), e as int),
            ) && p < e <= s.len(),
            None => p_match_keys(s@, p as int, n as nat) is None,
        },
{
    let (x, e) = match parse_match_key(s, p, n) {
        Some(x) => x,
        None => return None,
    };
    let mut v: Vec<MatchKey> = Vec::new();
    let ghost xm = x@;
    v.push(x);
    assert(match_keys_view(v@) =~= seq![xm]);
    let mut cur = e;
    loop
        invariant
            p < cur <= s.len(),
            p_match_keys(s@, p as int, n as nat) == Some(
                (
                    match_keys_view(v@) + p_match_keys_rest(s@, cur as int, n as nat).0,
                    p_match_keys_rest(s@, cur as int, n as nat).1,
                ),
            ),
        decreases s.len() - cur,
    {
        let a = match parse_sep(s, cur) {
            Some(a) => a,
            None => {
                assert(match_keys_view(v@) + seq![] =~= match_keys_view(v@));
                return Some((v, cur));
            },
        };
        match parse_match_key(s, a, n) {
            Some((y, b)) => {
                let ghost ym = y@;
                let ghost before = match_keys_view(v@);
                v.push(y);
                assert(match_keys_view(v@) =~= before.push(ym));
                assert(before + p_match_keys_rest(s@, cur as int, n as nat).0 =~= match_keys_view(
                    v@,
                ) + p_match_keys_rest(s@, b as int, n as nat).0);
                cur = b;
            },
            None => {
                assert(match_keys_view(v@) + seq![] =~= match_keys_view(v@));
                return Some((v, cur));
            },
        }
    }
}

fn parse_match_entry(s: &Vec<char>, p: usize, n: usize) -> (r: Option<(MatchBranch, usize)>)
    requires
        p <= s.len(),
    ensures
        match r {
            Some((x, e)) => p_match_entry(s@, p as int, n as nat) == Some((x@, e as int)) && p < e
                <= s.len(),
            None => p_match_entry(s@, p as int, n as nat) is None,
        },
{
    let (keys, e) = match parse_match_keys(s, p, n) {
        Some(x) => x,
        None => return None,
    };
    let a = skip_ws_and_comments(s, e);
    if !char_at(s, a, ':') {
        return None;
    }
    let b = skip_ws_and_comments(s, a + 1);
    match parse_template_string(s, b) {
        Some((template, f)) => Some((MatchBranch { keys, template }, f)),
        None => None,
    }
}

fn parse_trailing_comma(s: &Vec<char>, e: usize) -> (r: usize)
    requires
        e <= s.len(),
    ensures
        r as int == trailing_comma(s@, e as int),
        e <= r <= s.len(),
{
    let w = skip_ws_and_comments(s, e);
    if char_at(s, w, ',') {
        w + 1
    } else {
        e
    }
}

fn parse_match_entries(s: &Vec<char>, p: usize, n: usize) -> (r: (Vec<MatchBranch>, usize))
    requires
        p <= s.len(),
    ensures
        p_match_entries(s@, p as int, n as nat) == (branches_view(r.0@), r.1 as int),
        p <= r.1 <= s.len(),
{
    let mut v: Vec<MatchBranch> = Vec::new();
    let (x, e) = match parse_match_entry(s, p, n) {
        Some(x) => x,
        None => {
            assert(branches_view(v@) =~= seq![]);
            return (v, parse_trailing_comma(s, p));
        },
    };
    let ghost xm = x@;
    v.push(x);
    assert(branches_view(v@) =~= seq![xm]);
    let mut cur = e;
    loop
        invariant
            p < cur <= s.len(),
            p_match_entries(s@, p as int, n as nat) == (
                branches_view(v@) + p_match_entries_rest(s@, cur as int, n as nat).0,
                trailing_comma(s@, p_match_entries_rest(s@, cur as int, n as nat).1),
            ),
        decreases s.len() - cur,
    {
        let a = match parse_sep(s, cur) {
            Some(a) => a,
            None => {
                assert(branches_view(v@) + seq![] =~= branches_view(v@));
                return (v, parse_trailing_comma(s, cur));
            },
        };
        match parse_match_entry(s, a, n) {
            Some((y, b)) => {
                let ghost ym = y@;
                let ghost before = branches_view(v@);
                v.push(y);
                assert(branches_view(v@) =~= before.push(ym));
                assert(before + p_match_entries_rest(s@, cur as int, n as nat).0 =~= branches_view(
                    v@,
                ) + p_match_entries_rest(s@, b as int, n as nat).0);
                cur = b;
            },
            None => {
                assert(branches_view(v@) + seq![] =~= branches_view(v@));
                return (v, parse_trailing_comma(s, cur));
            },
        }
    }
}

fn parse_match_block(s: &Vec<char>, p: usize, n: usize) -> (r: Option<(Vec<MatchBranch>, usize)>)
    requires
        p <= s.len(),
    ensures
        match r {
            Some((v, e)) => p_match_block(s@, p as int, n as nat) == Some(
                (branches_view(v@), e as int),
            ) && p < e <= s.len(),
            None => p_match_block(s@, p as int, n as nat) is None,
        },
{
    if !char_at(s, p, '{') {
        return None;
    }
    let a = skip_ws_and_comments(s, p + 1);
    let (bs, e) = parse_match_entries(s, a, n);
    let c = skip_ws_and_comments(s, e);
    if char_at(s, c, '}') {
        Some((bs, c + 1))
    } else {
        None
    }
}

fn parse_variant_entry(s: &Vec<char>, p: usize) -> (r: Option<(VariantEntry, usize)>)
    requires
        p <= s.len(),
    ensures
        match r {
            Some((x, e)) => p_variant_entry(s@, p as int) == Some((x@, e as int)) && p < e
                <= s.len(),
            None => p_variant_entry(s@, p as int) is None,
        },
{
    let star = char_at(s, p, '*');
    let q = if star {
        p + 1
    } else {
        p
    };
    let e = match scan1(s, q, CharClass::Dotted) {
        Some(e) => e,
        None => return None,
    };
    let mut keys: Vec<String> = Vec::new();
    keys.push(substring(s, q, e));
    let ghost k0 = s@.subrange(q as int, e as int);
    assert(strings_view(keys@) =~= seq![k0]);
    let mut cur = e;
    loop
        invariant
            e <= cur <= s.len(),
            seq![k0] + p_variant_keys_rest(s@, e as int).0 == strings_view(keys@)
                + p_variant_keys_rest(s@, cur as int).0,
            p_variant_keys_rest(s@, e as int).1 == p_variant_keys_rest(s@, cur as int).1,
        ensures
            e <= cur <= s.len(),
            seq![k0] + p_variant_keys_rest(s@, e as int).0 == strings_view(keys@)
                + p_variant_keys_rest(s@, cur as int).0,
            p_variant_keys_rest(s@, e as int).1 == p_variant_keys_rest(s@, cur as int).1,
            p_variant_keys_rest(s@, cur as int) == (Seq::<Seq<char>>::empty(), cur as int),
        decreases s.len() - cur,
    {
        let a = match parse_sep(s, cur) {
            Some(a) => a,
            None => break,
        };
        match scan1(s, a, CharClass::Dotted) {
            Some(b) => {
                let k = substring(s, a, b);
                let ghost km = k@;
                let ghost before = strings_view(keys@);
                keys.push(k);
                assert(strings_view(keys@) =~= before.push(km));
                assert(before + p_variant_keys_rest(s@, cur as int).0 =~= strings_view(keys@)
                    + p_variant_keys_rest(s@, b as int).0);
                cur = b;
            },
            None => break,
        }
    }
    assert(strings_view(keys@) + seq![] =~= strings_view(keys@));
    let f = cur;
    let a = skip_ws_and_comments(s, f);
    if !char_at(s, a, ':') {
        return None;
    }
    let b = skip_ws_and_comments(s, a + 1);
    match parse_template_string(s, b) {
        Some((t, g)) => Some(
            (VariantEntry { keys, body: VariantEntryBody::Template(t), is_default: star }, g),
        ),
        None => None,
    }
}

fn parse_variant_entries(s: &Vec<char>, p: usize) -> (r: (Vec<VariantEntry>, usize))
    requires
        p <= s.len(),
    ensures
        p_variant_entries(s@, p as int) == (entries_model(r.0@), r.1 as int),
        p <= r.1 <= s.len(),
{
    let mut v: Vec<VariantEntry> = Vec::new();
    let (x, e) = match parse_variant_entry(s, p) {
        Some(x) => x,
        None => {
            assert(entries_model(v@) =~= seq![]);
            return (v, parse_trailing_comma(s, p));
        },
    };
    let ghost xm = x@;
    v.push(x);
    assert(entries_model(v@) =~= seq![xm]);
    let mut cur = e;
    loop
        invariant
            p < cur <= s.len(),
            p_variant_entries(s@, p as int) == (
                entries_model(v@) + p_variant_entries_rest(s@, cur as int).0,
                trailing_comma(s@, p_variant_entries_rest(s@, cur as int).1),
            ),
        decreases s.len() - cur,
    {
        let a = match parse_sep(s, cur) {
            Some(a) => a,
            None => {
                assert(entries_model(v@) + seq![] =~= entries_model(v@));
                return (v, parse_trailing_comma(s, cur));
            },
        };
        match parse_variant_entry(s, a) {
            Some((y, b)) => {
                let ghost ym = y@;
                let ghost before = entries_model(v@);
                v.push(y);
                assert(entries_model(v@) =~= before.push(ym));
                assert(before + p_variant_entries_rest(s@, cur as int).0 =~= entries_model(v@)
                    + p_variant_entries_rest(s@, b as int).0);
                cur = b;
            },
            None => {
                assert(entries_model(v@) + seq![] =~= entries_model(v@));
                return (v, parse_trailing_comma(s, cur));
            },
        }
    }
}

fn parse_phrase_body(s: &Vec<char>, p: usize) -> (r: Option<(PhraseBody, usize)>)
    requires
        p <= s.len(),
    ensures
        match r {
            Some((x, e)) => p_phrase_body(s@, p as int) == Some((x@, e as int)) && p < e <= s.len(),
            None => p_phrase_body(s@, p as int) is None,
        },
{
    if char_at(s, p, '{') {
        let a = skip_ws_and_comments(s, p + 1);
        let (es, e) = parse_variant_entries(s, a);
        let c = skip_ws_and_comments(s, e);
        if char_at(s, c, '}') {
            return Some((PhraseBody::Variants(es), c + 1));
        }
    }
    match parse_template_string(s, p) {
        Some((t, e)) => Some((PhraseBody::Simple(t), e)),
        None => None,
    }
}

fn parse_opt_from(s: &Vec<char>, p: usize) -> (r: (Option<String>, usize))
    requires
        p <= s.len(),
    ensures
        opt_from(s@, p as int) == (
            match r.0 {
                Some(x) => Some(x@),
                None => None,
            },
            r.1 as int,
        ),
        p <= r.1 <= s.len(),
{
    match parse_from_modifier(s, p) {
        Some((x, e)) => (Some(x), skip_ws_and_comments(s, e)),
        None => (None, p),
    }
}

fn parse_def_end(s: &Vec<char>, h: usize, match_params: &Vec<String>) -> (r: Option<(PhraseBody, usize)>)
    requires
        h <= s.len(),
    ensures
        match r {
            Some((b, e)) => p_def_end(s@, h as int, strings_view(match_params@)) == Some(
                (b@, e as int),
            ) && h < e <= s.len(),
            None => p_def_end(s@, h as int, strings_view(match_params@)) is None,
        },
{
    let body = if match_params.len() > 0 {
        match parse_match_block(s, h, match_params.len()) {
            Some((bs, e)) => Some((PhraseBody::Match(bs), e)),
            None => None,
        }
    } else {
        parse_phrase_body(s, h)
    };
    match body {
        Some((b, i)) => {
            let j = skip_ws_and_comments(s, i);
            if char_at(s, j, ';') {
                Some((b, j + 1))
            } else {
                None
            }
        },
        None => None,
    }
}

fn parse_definition(s: &Vec<char>, p: usize) -> (r: Option<(PhraseDefinition, usize)>)
    requires
        p <= s.len(),
    ensures
        match r {
            Some((x, e)) => p_definition(s@, p as int) == Some((x@, e as int)) && p < e <= s.len(),
            None => p_definition(s@, p as int) is None,
        },
{
    let n = match parse_snake(s, p) {
        Some(n) => n,
        None => return None,
    };
    let a = skip_ws_and_comments(s, n);
    let (params_opt, b) = match parse_parameter_list(s, a) {
        Some((ps, e)) => (Some(ps), e),
        None => (None, a),
    };
    let has_empty_parens = match &params_opt {
        Some(ps) => ps.len() == 0,
        None => false,
    };
    let parameters = match params_opt {
        Some(ps) => ps,
        None => {
            let v: Vec<String> = Vec::new();
            assert(strings_view(v@) =~= seq![]);
            v
        },
    };
    let c = skip_ws_and_comments(s, b);
    if !char_at(s, c, '=') {
        return None;
    }
    let d = skip_ws_and_comments(s, c + 1);
    let (tags, e) = parse_tags(s, d);
    let (fp1, f) = parse_opt_from(s, e);
    let (match_params, g) = match parse_match_modifier(s, f) {
        Some((x, e2)) => (x, skip_ws_and_comments(s, e2)),
        None => {
            let v: Vec<String> = Vec::new();
            assert(strings_view(v@) =~= seq![]);
            (v, f)
        },
    };
    let (from_param, h) = if fp1.is_none() {
        parse_opt_from(s, g)
    } else {
        (fp1, g)
    };
    let (body, j) = match parse_def_end(s, h, &match_params) {
        Some(x) => x,
        None => return None,
    };
    let kind = if parameters.len() == 0 {
        DefinitionKind::Term
    } else {
        DefinitionKind::Phrase
    };
    let def = PhraseDefinition {
        kind,
        name: substring(s, p, n),
        parameters,
        tags,
        from_param,
        match_params,
        body,
        has_empty_parens,
    };
    Some((def, j))
}

fn parse_definitions(s: &Vec<char>, p: usize) -> (r: (Vec<PhraseDefinition>, usize))
    requires
        p <= s.len(),
    ensures
        p_definitions(s@, p as int) == (definitions_view(r.0@), r.1 as int),
        p <= r.1 <= s.len(),
{
    let mut v: Vec<PhraseDefinition> = Vec::new();
    let mut i = p;
    loop
        invariant
            p <= i <= s.len(),
            p_definitions(s@, p as int) == (
                definitions_view(v@) + p_definitions(s@, i as int).0,
                p_definitions(s@, i as int).1,
            ),
        decreases s.len() - i,
    {
        match parse_definition(s, i) {
            Some((x, e)) => {
                let f = skip_ws_and_comments(s, e);
                let ghost xm = x@;
                let ghost before = definitions_view(v@);
                v.push(x);
                assert(definitions_view(v@) =~= before.push(xm));
                assert(before + p_definitions(s@, i as int).0 =~= definitions_view(v@)
                    + p_definitions(s@, f as int).0);
                i = f;
            },
            None => {
                assert(definitions_view(v@) + seq![] =~= definitions_view(v@));
                return (v, i);
            },
        }
    }
}

/// Parses a `.rlf` file into its phrase definitions.
pub fn parse_file(input: &str) -> (r: Result<Vec<PhraseDefinition>, ParseError>)
    ensures
        match (r, file_result(input@)) {
            (Ok(defs), Ok(m)) => definitions_view(defs@) == m,
            (Err(ParseError::Syntax { line, column, message }), Err((l, c, msg))) => line == l
                && column == c && message@ == msg,
            _ => false,
        },
{
    let s = crate::text::chars_of(input);
    let a = skip_ws_and_comments(&s, 0);
    let (defs, e) = parse_definitions(&s, a);
    let f = skip_ws_and_comments(&s, e);
    if f == s.len() {
        match validate_definitions(&defs) {
            Ok(()) => Ok(defs),
            Err(err) => Err(err),
        }
    } else {
        let (line, column) = calculate_position(&s, f);
        let message = unexpected_char_message(s[f]);
        Err(ParseError::Syntax { line, column, message })
    }
}

} // verus!
