//! The template grammar: literal text, escapes and interpolations
//! `{transforms reference selectors}`.
//!
//! Each parsing function takes the input's characters and a position and
//! returns what it read with the position after it, or `None` where the
//! grammar does not match there (without consuming anything). The `p_*`
//! spec functions state the grammar; each executable function is proved to
//! compute its `p_*` function.
use vstd::prelude::*;
use crate::text::{
    is_ws, is_ascii_alpha, is_ascii_upper, is_ascii_digit, ascii_lower, parse_i64_spec, char_is_ws,
    char_is_ascii_alpha, char_is_ascii_digit, char_to_ascii_lower, parse_i64, push_char,
};
use crate::ast::{
    TransformContextModel, TransformModel, ReferenceModel, SelectorModel, SegmentModel, Transform,
    TransformContext, Reference, Selector, Segment, Template, transforms_view, selectors_view,
    segments_view,
};
use crate::errors::ParseError;
use crate::parser::lex::{
    CharClass, run_end, run1, at, skip_ws, scan, scan1, char_at, skip_ws_exec, lemma_run_end,
    position_of, calculate_position,
};

verus! {

/// The characters of `s` between `a` and `b`, as a `String`.
pub fn substring(s: &Vec<char>, a: usize, b: usize) -> (r: String)
    requires
        a <= b <= s.len(),
    ensures
        r@ == s@.subrange(a as int, b as int),
{
    let v = crate::text::slice_range(s.as_slice(), a, b);
    crate::text::string_of(v.as_slice())
}

// ---------------------------------------------------------------------------
// Transforms
// ---------------------------------------------------------------------------

/// Optional static context `:literal` after a transform name. The context is
/// taken only where the colon is not followed by whitespace.
pub open spec fn p_static_ctx(s: Seq<char>, n: int) -> Option<(Option<Seq<char>>, int)> {
    if at(s, n, ':') && !(0 <= n + 1 < s.len() && is_ws(s[n + 1])) {
        match run1(s, n + 1, CharClass::Dotted) {
            Some(e) => Some((Some(s.subrange(n + 1, e)), e)),
            None => None,
        }
    } else {
        Some((None, n))
    }
}

/// Optional dynamic context `($param)` after a transform name.
pub open spec fn p_dynamic_ctx(s: Seq<char>, q: int) -> Option<(Option<Seq<char>>, int)> {
    if at(s, q, '(') {
        let a = skip_ws(s, q + 1);
        if at(s, a, '$') {
            match run1(s, a + 1, CharClass::Ident) {
                Some(e) => {
                    let b = skip_ws(s, e);
                    if at(s, b, ')') {
                        Some((Some(s.subrange(a + 1, e)), b + 1))
                    } else {
                        None
                    }
                },
                None => None,
            }
        } else {
            None
        }
    } else {
        Some((None, q))
    }
}

pub open spec fn ctx_model(st: Option<Seq<char>>, dy: Option<Seq<char>>) -> TransformContextModel {
    match (st, dy) {
        (Some(a), Some(b)) => TransformContextModel::Both(a, b),
        (Some(a), None) => TransformContextModel::Static(a),
        (None, Some(b)) => TransformContextModel::Dynamic(b),
        (None, None) => TransformContextModel::Absent,
    }
}

/// A transform: `@name`, `@name:ctx`, `@name($p)` or `@name:ctx($p)`.
pub open spec fn p_transform(s: Seq<char>, p: int) -> Option<(TransformModel, int)> {
    if at(s, p, '@') {
        match run1(s, p + 1, CharClass::Ident) {
            Some(n) => match p_static_ctx(s, n) {
                Some((st, q)) => match p_dynamic_ctx(s, q) {
                    Some((dy, e)) => Some(
                        (TransformModel { name: s.subrange(p + 1, n), context: ctx_model(st, dy) }, e),
                    ),
                    None => None,
                },
                None => None,
            },
            None => None,
        }
    } else {
        None
    }
}

/// Transforms, each followed by optional whitespace.
pub open spec fn p_transforms(s: Seq<char>, p: int) -> (Seq<TransformModel>, int)
    decreases s.len() - p,
{
    match p_transform(s, p) {
        Some((t, e)) => {
            let f = skip_ws(s, e);
            if p < f <= s.len() {
                let (rest, g) = p_transforms(s, f);
                (seq![t] + rest, g)
            } else {
                (seq![], p)
            }
        },
        None => (seq![], p),
    }
}

fn parse_static_ctx(s: &Vec<char>, n: usize) -> (r: Option<(Option<String>, usize)>)
    requires
        n <= s.len(),
    ensures
        match r {
            Some((st, e)) => p_static_ctx(s@, n as int) == Some(
                (
                    match st {
                        Some(x) => Some(x@),
                        None => None,
                    },
                    e as int,
                ),
            ) && n <= e <= s.len(),
            None => p_static_ctx(s@, n as int) is None,
        },
{
    if char_at(s, n, ':') && !(n + 1 < s.len() && char_is_ws(s[n + 1])) {
        match scan1(s, n + 1, CharClass::Dotted) {
            Some(e) => Some((Some(substring(s, n + 1, e)), e)),
            None => None,
        }
    } else {
        Some((None, n))
    }
}

fn parse_dynamic_ctx(s: &Vec<char>, q: usize) -> (r: Option<(Option<String>, usize)>)
    requires
        q <= s.len(),
    ensures
        match r {
            Some((dy, e)) => p_dynamic_ctx(s@, q as int) == Some(
                (
                    match dy {
                        Some(x) => Some(x@),
                        None => None,
                    },
                    e as int,
                ),
            ) && q <= e <= s.len(),
            None => p_dynamic_ctx(s@, q as int) is None,
        },
{
    if char_at(s, q, '(') {
        let a = skip_ws_exec(s, q + 1);
        if char_at(s, a, '$') {
            match scan1(s, a + 1, CharClass::Ident) {
                Some(e) => {
                    let b = skip_ws_exec(s, e);
                    if char_at(s, b, ')') {
                        Some((Some(substring(s, a + 1, e)), b + 1))
                    } else {
                        None
                    }
                },
                None => None,
            }
        } else {
            None
        }
    } else {
        Some((None, q))
    }
}

fn parse_transform(s: &Vec<char>, p: usize) -> (r: Option<(Transform, usize)>)
    requires
        p <= s.len(),
    ensures
        match r {
            Some((t, e)) => p_transform(s@, p as int) == Some((t@, e as int)) && p < e <= s.len(),
            None => p_transform(s@, p as int) is None,
        },
{
    if !char_at(s, p, '@') {
        return None;
    }
    let n = match scan1(s, p + 1, CharClass::Ident) {
        Some(n) => n,
        None => return None,
    };
    let (st, q) = match parse_static_ctx(s, n) {
        Some(x) => x,
        None => return None,
    };
    let (dy, e) = match parse_dynamic_ctx(s, q) {
        Some(x) => x,
        None => return None,
    };
    let context = match (st, dy) {
        (Some(a), Some(b)) => TransformContext::Both(a, b),
        (Some(a), None) => TransformContext::Static(a),
        (None, Some(b)) => TransformContext::Dynamic(b),
        (None, None) => TransformContext::Absent,
    };
    let t = Transform { name: substring(s, p + 1, n), context };
    Some((t, e))
}

fn parse_transforms(s: &Vec<char>, p: usize) -> (r: (Vec<Transform>, usize))
    requires
        p <= s.len(),
    ensures
        p_transforms(s@, p as int) == (transforms_view(r.0@), r.1 as int),
        p <= r.1 <= s.len(),
{
    let mut v: Vec<Transform> = Vec::new();
    let mut i = p;
    loop
        invariant
            p <= i <= s.len(),
            p_transforms(s@, p as int) == (
                transforms_view(v@) + p_transforms(s@, i as int).0,
                p_transforms(s@, i as int).1,
            ),
        decreases s.len() - i,
    {
        match parse_transform(s, i) {
            Some((t, e)) => {
                let f = skip_ws_exec(s, e);
                let ghost tm = t@;
                let ghost before = transforms_view(v@);
                v.push(t);
                assert(transforms_view(v@) =~= before.push(tm));
                assert(transforms_view(v@.drop_last()) =~= before);
                assert(seq![tm] + p_transforms(s@, f as int).0 =~= p_transforms(s@, i as int).0);
                assert(transforms_view(v@) + p_transforms(s@, f as int).0 =~= transforms_view(
                    v@.drop_last(),
                ) + p_transforms(s@, i as int).0);
                i = f;
            },
            None => {
                assert(transforms_view(v@) + seq![] =~= transforms_view(v@));
                return (v, i);
            },
        }
    }
}

// ---------------------------------------------------------------------------
// References
// ---------------------------------------------------------------------------

pub open spec fn is_ident_start(c: char) -> bool {
    is_ascii_alpha(c) || c == '_'
}

/// `name` with its first character and each character after a `_` lowered
/// (the name behind an auto-capitalised reference).
pub open spec fn lower_after_underscore(name: Seq<char>) -> Seq<char> {
    Seq::new(
        name.len(),
        |i: int|
            if i == 0 || name[i - 1] == '_' {
                ascii_lower(name[i])
            } else {
                name[i]
            },
    )
}

/// The body of a string argument after its opening quote, up to and including
/// the closing quote; `\"` and `\\` are escapes, any other backslash is kept.
pub open spec fn p_str_body(s: Seq<char>, q: int) -> Option<(Seq<char>, int)>
    decreases s.len() - q,
{
    if 0 <= q < s.len() {
        let c = s[q];
        if c == '"' {
            Some((seq![], q + 1))
        } else if c == '\\' {
            if q + 1 < s.len() {
                let d = s[q + 1];
                let piece = if d == '"' {
                    seq!['"']
                } else if d == '\\' {
                    seq!['\\']
                } else {
                    seq!['\\', d]
                };
                match p_str_body(s, q + 2) {
                    Some((t, e)) => Some((piece + t, e)),
                    None => None,
                }
            } else {
                None
            }
        } else {
            match p_str_body(s, q + 1) {
                Some((t, e)) => Some((seq![c] + t, e)),
                None => None,
            }
        }
    } else {
        None
    }
}

/// An argument of a phrase call: `$param`, a string, a number or a name.
pub open spec fn p_ref_arg(s: Seq<char>, p: int) -> Option<(ReferenceModel, int)> {
    if at(s, p, '$') {
        match run1(s, p + 1, CharClass::Ident) {
            Some(e) => Some((ReferenceModel::Parameter(s.subrange(p + 1, e)), e)),
            None => None,
        }
    } else if at(s, p, '"') {
        match p_str_body(s, p + 1) {
            Some((t, e)) => Some((ReferenceModel::StringLiteral(t), e)),
            None => None,
        }
    } else if 0 <= p < s.len() && is_ascii_digit(s[p]) {
        let e = run_end(s, p, CharClass::Digit);
        match parse_i64_spec(s.subrange(p, e)) {
            Some(n) => Some((ReferenceModel::NumberLiteral(n), e)),
            None => None,
        }
    } else {
        match run1(s, p, CharClass::Ident) {
            Some(e) => Some((ReferenceModel::Identifier(s.subrange(p, e)), e)),
            None => None,
        }
    }
}

/// Further arguments, each after a comma; stops before a comma that is not
/// followed by an argument.
pub open spec fn p_args_rest(s: Seq<char>, cur: int) -> (Seq<ReferenceModel>, int)
    decreases s.len() - cur,
{
    let w = skip_ws(s, cur);
    if at(s, w, ',') {
        match p_ref_arg(s, skip_ws(s, w + 1)) {
            Some((x, b)) => if cur < b <= s.len() {
                let (rest, f) = p_args_rest(s, b);
                (seq![x] + rest, f)
            } else {
                (seq![], cur)
            },
            None => (seq![], cur),
        }
    } else {
        (seq![], cur)
    }
}

/// Comma-separated arguments (possibly none).
pub open spec fn p_args(s: Seq<char>, p: int) -> (Seq<ReferenceModel>, int) {
    match p_ref_arg(s, p) {
        Some((x, e)) => {
            let (rest, f) = p_args_rest(s, e);
            (seq![x] + rest, f)
        },
        None => (seq![], p),
    }
}

/// The argument list of a phrase call: `( args )`.
pub open spec fn p_call_args(s: Seq<char>, p: int) -> Option<(Seq<ReferenceModel>, int)> {
    if at(s, p, '(') {
        let (items, b) = p_args(s, skip_ws(s, p + 1));
        let c = skip_ws(s, b);
        if at(s, c, ')') {
            Some((items, c + 1))
        } else {
            None
        }
    } else {
        None
    }
}

/// A reference: `$$` (a literal `$`), `$param`, or a name with optional call
/// arguments. The flag tells whether the name started with an uppercase
/// letter, which asks for capitalisation.
pub open spec fn p_reference(s: Seq<char>, p: int) -> Option<(ReferenceModel, bool, int)> {
    if at(s, p, '$') && at(s, p + 1, '$') {
        Some((ReferenceModel::Identifier(seq!['$']), false, p + 2))
    } else if at(s, p, '$') {
        match run1(s, p + 1, CharClass::Ident) {
            Some(e) => Some((ReferenceModel::Parameter(s.subrange(p + 1, e)), false, e)),
            None => None,
        }
    } else if 0 <= p < s.len() && is_ident_start(s[p]) {
        let e = run_end(s, p + 1, CharClass::Ident);
        let name = s.subrange(p, e);
        let cap = is_ascii_upper(s[p]);
        let actual = if cap {
            lower_after_underscore(name)
        } else {
            name
        };
        match p_call_args(s, e) {
            Some((args, f)) => Some((ReferenceModel::PhraseCall { name: actual, args }, cap, f)),
            None => Some((ReferenceModel::Identifier(actual), cap, e)),
        }
    } else {
        None
    }
}

pub open spec fn refs_view(v: Seq<Reference>) -> Seq<ReferenceModel> {
    v.map_values(|r: Reference| r@)
}

fn parse_str_body(s: &Vec<char>, q: usize) -> (r: Option<(String, usize)>)
    requires
        q <= s.len(),
    ensures
        match r {
            Some((t, e)) => p_str_body(s@, q as int) == Some((t@, e as int)) && q < e <= s.len(),
            None => p_str_body(s@, q as int) is None,
        },
{
    let mut acc = String::new();
    let mut i = q;
    loop
        invariant
            q <= i <= s.len(),
            p_str_body(s@, q as int) == match p_str_body(s@, i as int) {
                Some((t, e)) => Some((acc@ + t, e)),
                None => None,
            },
            match p_str_body(s@, i as int) {
                Some((t, e)) => i < e <= s.len(),
                None => true,
            } ==> match p_str_body(s@, q as int) {
                Some((t, e)) => q < e <= s.len(),
                None => true,
            },
        decreases s.len() - i,
    {
        if i >= s.len() {
            return None;
        }
        let c = s[i];
        if c == '"' {
            assert(acc@ + seq![] =~= acc@);
            return Some((acc, i + 1));
        } else if c == '\\' {
            if i + 1 >= s.len() {
                return None;
            }
            let d = s[i + 1];
            let ghost before = acc@;
            if d == '"' {
                push_char(&mut acc, '"');
            } else if d == '\\' {
                push_char(&mut acc, '\\');
            } else {
                push_char(&mut acc, '\\');
                push_char(&mut acc, d);
            }
            proof {
                let piece = if d == '"' {
                    seq!['"']
                } else if d == '\\' {
                    seq!['\\']
                } else {
                    seq!['\\', d]
                };
                assert(acc@ =~= before + piece);
                match p_str_body(s@, i + 2) {
                    Some((t, e)) => {
                        assert(before + (piece + t) =~= acc@ + t);
                    },
                    None => {},
                }
            }
            i = i + 2;
        } else {
            let ghost before = acc@;
            push_char(&mut acc, c);
            proof {
                match p_str_body(s@, i + 1) {
                    Some((t, e)) => {
                        assert(before + (seq![c] + t) =~= acc@ + t);
                    },
                    None => {},
                }
            }
            i = i + 1;
        }
    }
}

fn parse_ref_arg(s: &Vec<char>, p: usize) -> (r: Option<(Reference, usize)>)
    requires
        p <= s.len(),
    ensures
        match r {
            Some((x, e)) => p_ref_arg(s@, p as int) == Some((x@, e as int)) && p < e <= s.len(),
            None => p_ref_arg(s@, p as int) is None,
        },
{
    if char_at(s, p, '$') {
        match scan1(s, p + 1, CharClass::Ident) {
            Some(e) => Some((Reference::Parameter(substring(s, p + 1, e)), e)),
            None => None,
        }
    } else if char_at(s, p, '"') {
        match parse_str_body(s, p + 1) {
            Some((t, e)) => Some((Reference::StringLiteral(t), e)),
            None => None,
        }
    } else if p < s.len() && char_is_ascii_digit(s[p]) {
        let e = scan(s, p, CharClass::Digit);
        let digits = crate::text::slice_range(s.as_slice(), p, e);
        match parse_i64(digits.as_slice()) {
            Some(n) => Some((Reference::NumberLiteral(n), e)),
            None => None,
        }
    } else {
        match scan1(s, p, CharClass::Ident) {
            Some(e) => Some((Reference::Identifier(substring(s, p, e)), e)),
            None => None,
        }
    }
}

fn parse_args(s: &Vec<char>, p: usize) -> (r: (Vec<Reference>, usize))
    requires
        p <= s.len(),
    ensures
        p_args(s@, p as int) == (refs_view(r.0@), r.1 as int),
        p <= r.1 <= s.len(),
{
    let mut v: Vec<Reference> = Vec::new();
    let (x, e) = match parse_ref_arg(s, p) {
        Some(x) => x,
        None => {
            assert(refs_view(v@) =~= seq![]);
            return (v, p);
        },
    };
    let ghost xm = x@;
    v.push(x);
    assert(refs_view(v@) =~= seq![xm]);
    let mut cur = e;
    loop
        invariant
            p < cur <= s.len(),
            p_args(s@, p as int) == (
                refs_view(v@) + p_args_rest(s@, cur as int).0,
                p_args_rest(s@, cur as int).1,
            ),
        decreases s.len() - cur,
    {
        let w = skip_ws_exec(s, cur);
        if !char_at(s, w, ',') {
            assert(refs_view(v@) + seq![] =~= refs_view(v@));
            return (v, cur);
        }
        let a = skip_ws_exec(s, w + 1);
        match parse_ref_arg(s, a) {
            Some((y, b)) => {
                let ghost ym = y@;
                let ghost old_v = refs_view(v@);
                v.push(y);
                assert(refs_view(v@) =~= old_v.push(ym));
                assert(old_v + p_args_rest(s@, cur as int).0 =~= refs_view(v@) + p_args_rest(
                    s@,
                    b as int,
                ).0);
                cur = b;
            },
            None => {
                assert(refs_view(v@) + seq![] =~= refs_view(v@));
                return (v, cur);
            },
        }
    }
}

fn parse_call_args(s: &Vec<char>, p: usize) -> (r: Option<(Vec<Reference>, usize)>)
    requires
        p <= s.len(),
    ensures
        match r {
            Some((v, e)) => p_call_args(s@, p as int) == Some((refs_view(v@), e as int)) && p < e
                <= s.len(),
            None => p_call_args(s@, p as int) is None,
        },
{
    if !char_at(s, p, '(') {
        return None;
    }
    let a = skip_ws_exec(s, p + 1);
    let (items, b) = parse_args(s, a);
    let c = skip_ws_exec(s, b);
    if char_at(s, c, ')') {
        Some((items, c + 1))
    } else {
        None
    }
}

fn lower_name(name: &Vec<char>) -> (r: String)
    ensures
        r@ == lower_after_underscore(name@),
{
    let mut r = String::new();
    let mut i: usize = 0;
    while i < name.len()
        invariant
            i <= name.len(),
            r@ =~= lower_after_underscore(name@).take(i as int),
        decreases name.len() - i,
    {
        let c = name[i];
        if i == 0 || name[i - 1] == '_' {
            push_char(&mut r, char_to_ascii_lower(c));
        } else {
            push_char(&mut r, c);
        }
        i = i + 1;
    }
    r
}

proof fn lemma_call_view(name: String, args: Vec<Reference>)
    ensures
        (Reference::PhraseCall { name, args })@ == (ReferenceModel::PhraseCall {
            name: name@,
            args: refs_view(args@),
        }),
{
    let r = Reference::PhraseCall { name, args };
    match crate::ast::reference_model(r) {
        ReferenceModel::PhraseCall { name: n, args: a } => {
            assert(a =~= refs_view(args@));
        },
        _ => {},
    }
}

fn parse_reference(s: &Vec<char>, p: usize) -> (r: Option<(Reference, bool, usize)>)
    requires
        p <= s.len(),
    ensures
        match r {
            Some((x, cap, e)) => p_reference(s@, p as int) == Some((x@, cap, e as int)) && p < e
                <= s.len(),
            None => p_reference(s@, p as int) is None,
        },
{
    if char_at(s, p, '$') && char_at(s, p + 1, '$') {
        let mut d = String::new();
        push_char(&mut d, '$');
        return Some((Reference::Identifier(d), false, p + 2));
    }
    if char_at(s, p, '$') {
        return match scan1(s, p + 1, CharClass::Ident) {
            Some(e) => Some((Reference::Parameter(substring(s, p + 1, e)), false, e)),
            None => None,
        };
    }
    if !(p < s.len() && (char_is_ascii_alpha(s[p]) || s[p] == '_')) {
        return None;
    }
    let e = scan(s, p + 1, CharClass::Ident);
    let cap = 'A' <= s[p] && s[p] <= 'Z';
    let actual = if cap {
        let name = crate::text::slice_range(s.as_slice(), p, e);
        lower_name(&name)
    } else {
        substring(s, p, e)
    };
    match parse_call_args(s, e) {
        Some((args, f)) => {
            proof {
                lemma_call_view(actual, args);
            }
            Some((Reference::PhraseCall { name: actual, args }, cap, f))
        },
        None => Some((Reference::Identifier(actual), cap, e)),
    }
}

// ---------------------------------------------------------------------------
// Selectors
// ---------------------------------------------------------------------------

/// A selector: `:name` or `:$param`.
pub open spec fn p_selector(s: Seq<char>, p: int) -> Option<(SelectorModel, int)> {
    if at(s, p, ':') {
        if at(s, p + 1, '$') {
            match run1(s, p + 2, CharClass::Ident) {
                Some(e) => Some((SelectorModel::Parameter(s.subrange(p + 2, e)), e)),
                None => None,
            }
        } else {
            match run1(s, p + 1, CharClass::Ident) {
                Some(e) => Some((SelectorModel::Identifier(s.subrange(p + 1, e)), e)),
                None => None,
            }
        }
    } else {
        None
    }
}

pub open spec fn p_selectors(s: Seq<char>, p: int) -> (Seq<SelectorModel>, int)
    decreases s.len() - p,
{
    match p_selector(s, p) {
        Some((x, e)) => if p < e <= s.len() {
            let (rest, f) = p_selectors(s, e);
            (seq![x] + rest, f)
        } else {
            (seq![], p)
        },
        None => (seq![], p),
    }
}

fn parse_selector(s: &Vec<char>, p: usize) -> (r: Option<(Selector, usize)>)
    requires
        p <= s.len(),
    ensures
        match r {
            Some((x, e)) => p_selector(s@, p as int) == Some((x@, e as int)) && p < e <= s.len(),
            None => p_selector(s@, p as int) is None,
        },
{
    if !char_at(s, p, ':') {
        return None;
    }
    if char_at(s, p + 1, '$') {
        match scan1(s, p + 2, CharClass::Ident) {
            Some(e) => Some((Selector::Parameter(substring(s, p + 2, e)), e)),
            None => None,
        }
    } else {
        match scan1(s, p + 1, CharClass::Ident) {
            Some(e) => Some((Selector::Identifier(substring(s, p + 1, e)), e)),
            None => None,
        }
    }
}

fn parse_selectors(s: &Vec<char>, p: usize) -> (r: (Vec<Selector>, usize))
    requires
        p <= s.len(),
    ensures
        p_selectors(s@, p as int) == (selectors_view(r.0@), r.1 as int),
        p <= r.1 <= s.len(),
{
    let mut v: Vec<Selector> = Vec::new();
    let mut i = p;
    loop
        invariant
            p <= i <= s.len(),
            p_selectors(s@, p as int) == (
                selectors_view(v@) + p_selectors(s@, i as int).0,
                p_selectors(s@, i as int).1,
            ),
        decreases s.len() - i,
    {
        match parse_selector(s, i) {
            Some((x, e)) => {
                let ghost xm = x@;
                let ghost old_v = selectors_view(v@);
                v.push(x);
                assert(selectors_view(v@) =~= old_v.push(xm));
                assert(old_v + p_selectors(s@, i as int).0 =~= selectors_view(v@) + p_selectors(
                    s@,
                    e as int,
                ).0);
                i = e;
            },
            None => {
                assert(selectors_view(v@) + seq![] =~= selectors_view(v@));
                return (v, i);
            },
        }
    }
}

// ---------------------------------------------------------------------------
// Interpolations and segments
// ---------------------------------------------------------------------------

pub open spec fn cap_transform() -> TransformModel {
    TransformModel { name: "cap"@, context: TransformContextModel::Absent }
}

/// The inside of an interpolation; an uppercase reference puts `@cap` first.
pub open spec fn p_interp_content(s: Seq<char>, p: int) -> Option<(SegmentModel, int)> {
    let (ts, b) = p_transforms(s, skip_ws(s, p));
    match p_reference(s, b) {
        Some((r, cap, c)) => {
            let (sels, d) = p_selectors(s, c);
            let transforms = if cap {
                seq![cap_transform()] + ts
            } else {
                ts
            };
            Some(
                (
                    SegmentModel::Interpolation { transforms, reference: r, selectors: sels },
                    skip_ws(s, d),
                ),
            )
        },
        None => None,
    }
}

pub open spec fn p_interpolation(s: Seq<char>, p: int) -> Option<(SegmentModel, int)> {
    if at(s, p, '{') {
        match p_interp_content(s, p + 1) {
            Some((x, e)) => if at(s, e, '}') {
                Some((x, e + 1))
            } else {
                None
            },
            None => None,
        }
    } else {
        None
    }
}

/// One segment: an escape, an interpolation or a literal character. In a
/// file's template strings (`in_file`) the escapes are `{{` and `}}` and a
/// literal is any character but `{`, `}` and `"`; in a standalone template
/// `@@` and `::` are escapes too and `"` is literal.
pub open spec fn p_segment(s: Seq<char>, p: int, in_file: bool) -> Option<(SegmentModel, int)> {
    if at(s, p, '{') && at(s, p + 1, '{') {
        Some((SegmentModel::Literal(seq!['{']), p + 2))
    } else if at(s, p, '}') && at(s, p + 1, '}') {
        Some((SegmentModel::Literal(seq!['}']), p + 2))
    } else if !in_file && at(s, p, '@') && at(s, p + 1, '@') {
        Some((SegmentModel::Literal(seq!['@']), p + 2))
    } else if !in_file && at(s, p, ':') && at(s, p + 1, ':') {
        Some((SegmentModel::Literal(seq![':']), p + 2))
    } else if at(s, p, '{') {
        p_interpolation(s, p)
    } else if 0 <= p < s.len() && s[p] != '}' && !(in_file && s[p] == '"') {
        Some((SegmentModel::Literal(seq![s[p]]), p + 1))
    } else {
        None
    }
}

/// As many segments as follow one another from `p`.
pub open spec fn p_segments(s: Seq<char>, p: int, in_file: bool) -> (Seq<SegmentModel>, int)
    decreases s.len() - p,
{
    match p_segment(s, p, in_file) {
        Some((x, e)) => if p < e <= s.len() {
            let (rest, f) = p_segments(s, e, in_file);
            (seq![x] + rest, f)
        } else {
            (seq![], p)
        },
        None => (seq![], p),
    }
}

/// Adjacent literal segments joined into one.
pub open spec fn merge_literals(segs: Seq<SegmentModel>) -> Seq<SegmentModel>
    decreases segs.len(),
{
    if segs.len() == 0 {
        seq![]
    } else {
        let m = merge_literals(segs.drop_last());
        match segs.last() {
            SegmentModel::Literal(t) => if m.len() > 0 && m.last() is Literal {
                match m.last() {
                    SegmentModel::Literal(prev) => m.update(
                        m.len() - 1,
                        SegmentModel::Literal(prev + t),
                    ),
                    _ => m,
                }
            } else {
                m.push(SegmentModel::Literal(t))
            },
            other => m.push(other),
        }
    }
}

fn parse_interpolation(s: &Vec<char>, p: usize) -> (r: Option<(Segment, usize)>)
    requires
        p <= s.len(),
    ensures
        match r {
            Some((x, e)) => p_interpolation(s@, p as int) == Some((x@, e as int)) && p < e
                <= s.len(),
            None => p_interpolation(s@, p as int) is None,
        },
{
    if !char_at(s, p, '{') {
        return None;
    }
    let a = skip_ws_exec(s, p + 1);
    let (mut ts, b) = parse_transforms(s, a);
    let (reference, cap, c) = match parse_reference(s, b) {
        Some(x) => x,
        None => return None,
    };
    let (sels, d) = parse_selectors(s, c);
    let e = skip_ws_exec(s, d);
    if !char_at(s, e, '}') {
        return None;
    }
    if cap {
        let ghost old_ts = transforms_view(ts@);
        let t = Transform { name: crate::text::to_string("cap"), context: TransformContext::Absent };
        ts.insert(0, t);
        assert(transforms_view(ts@) =~= seq![cap_transform()] + old_ts);
    }
    Some((Segment::Interpolation { transforms: ts, reference, selectors: sels }, e + 1))
}

fn parse_segment(s: &Vec<char>, p: usize, in_file: bool) -> (r: Option<(Segment, usize)>)
    requires
        p <= s.len(),
    ensures
        match r {
            Some((x, e)) => p_segment(s@, p as int, in_file) == Some((x@, e as int)) && p < e
                <= s.len(),
            None => p_segment(s@, p as int, in_file) is None,
        },
{
    if char_at(s, p, '{') && char_at(s, p + 1, '{') {
        let mut t = String::new();
        push_char(&mut t, '{');
        Some((Segment::Literal(t), p + 2))
    } else if char_at(s, p, '}') && char_at(s, p + 1, '}') {
        let mut t = String::new();
        push_char(&mut t, '}');
        Some((Segment::Literal(t), p + 2))
    } else if !in_file && char_at(s, p, '@') && char_at(s, p + 1, '@') {
        let mut t = String::new();
        push_char(&mut t, '@');
        Some((Segment::Literal(t), p + 2))
    } else if !in_file && char_at(s, p, ':') && char_at(s, p + 1, ':') {
        let mut t = String::new();
        push_char(&mut t, ':');
        Some((Segment::Literal(t), p + 2))
    } else if char_at(s, p, '{') {
        parse_interpolation(s, p)
    } else if p < s.len() && s[p] != '}' && !(in_file && s[p] == '"') {
        let mut t = String::new();
        push_char(&mut t, s[p]);
        Some((Segment::Literal(t), p + 1))
    } else {
        None
    }
}

/// Parses segments from `p` and joins adjacent literals.
pub fn parse_segments(s: &Vec<char>, p: usize, in_file: bool) -> (r: (Vec<Segment>, usize))
    requires
        p <= s.len(),
    ensures
        segments_view(r.0@) == merge_literals(p_segments(s@, p as int, in_file).0),
        r.1 as int == p_segments(s@, p as int, in_file).1,
        p <= r.1 <= s.len(),
{
    let mut result: Vec<Segment> = Vec::new();
    let mut lit = String::new();
    let mut has_lit = false;
    let ghost mut parsed: Seq<SegmentModel> = seq![];
    let mut i = p;
    loop
        invariant
            p <= i <= s.len(),
            p_segments(s@, p as int, in_file) == (
                parsed + p_segments(s@, i as int, in_file).0,
                p_segments(s@, i as int, in_file).1,
            ),
            merge_literals(parsed) == segments_view(result@) + if has_lit {
                seq![SegmentModel::Literal(lit@)]
            } else {
                seq![]
            },
            result@.len() > 0 ==> (result@.last()@ is Interpolation),
        decreases s.len() - i,
    {
        match parse_segment(s, i, in_file) {
            Some((x, e)) => {
                let ghost xm = x@;
                proof {
                    assert(seq![xm] + p_segments(s@, e as int, in_file).0 =~= p_segments(
                        s@,
                        i as int,
                        in_file,
                    ).0);
                    assert(parsed + p_segments(s@, i as int, in_file).0 =~= parsed.push(xm)
                        + p_segments(s@, e as int, in_file).0);
                    assert(parsed.push(xm).drop_last() =~= parsed);
                }
                let ghost old_result = segments_view(result@);
                match x {
                    Segment::Literal(t) => {
                        if has_lit {
                            let ghost old_lit = lit@;
                            crate::text::push_str(&mut lit, t.as_str());
                            proof {
                                let m = merge_literals(parsed);
                                assert(m.last() == SegmentModel::Literal(old_lit));
                                assert(merge_literals(parsed.push(xm)) =~= old_result + seq![
                                    SegmentModel::Literal(lit@),
                                ]);
                            }
                        } else {
                            lit = t;
                            has_lit = true;
                            proof {
                                let m = merge_literals(parsed);
                                assert(m =~= old_result);
                                assert(merge_literals(parsed.push(xm)) =~= old_result + seq![
                                    SegmentModel::Literal(lit@),
                                ]);
                            }
                        }
                    },
                    Segment::Interpolation { transforms, reference, selectors } => {
                        let seg = Segment::Interpolation { transforms, reference, selectors };
                        assert(seg@ == xm);
                        if has_lit {
                            let l = Segment::Literal(lit);
                            result.push(l);
                            lit = String::new();
                            has_lit = false;
                        }
                        let ghost mid = segments_view(result@);
                        result.push(seg);
                        proof {
                            assert(segments_view(result@) =~= mid.push(xm));
                            assert(merge_literals(parsed.push(xm)) =~= merge_literals(parsed).push(
                                xm,
                            ));
                            assert(segments_view(result@.drop_last()) =~= mid);
                        }
                    },
                }
                proof {
                    parsed = parsed.push(xm);
                }
                i = e;
            },
            None => {
                if has_lit {
                    let ghost before = segments_view(result@);
                    let ghost old_lit = lit@;
                    result.push(Segment::Literal(lit));
                    assert(segments_view(result@) =~= before.push(SegmentModel::Literal(old_lit)));
                }
                assert(parsed + seq![] =~= parsed);
                assert(segments_view(result@) =~= merge_literals(parsed));
                return (result, i);
            },
        }
    }
}

// ---------------------------------------------------------------------------
// Standalone templates
// ---------------------------------------------------------------------------

/// The message of a syntax error at an unexpected character.
pub open spec fn unexpected_message(c: char) -> Seq<char> {
    "unexpected character: '"@ + seq![c] + "'"@
}

pub fn unexpected_char_message(c: char) -> (r: String)
    ensures
        r@ == unexpected_message(c),
{
    let mut m = crate::text::to_string("unexpected character: '");
    push_char(&mut m, c);
    crate::text::push_str(&mut m, "'");
    m
}

/// What parsing a standalone template gives: its merged segments where every
/// character was read, else a syntax error at the first one that was not.
pub open spec fn template_result(s: Seq<char>) -> Result<Seq<SegmentModel>, (nat, nat, Seq<char>)> {
    let (segs, e) = p_segments(s, 0, false);
    if e == s.len() {
        Ok(merge_literals(segs))
    } else {
        Err((position_of(s, e).0, position_of(s, e).1, unexpected_message(s[e])))
    }
}

/// Parses a template string.
pub fn parse_template(input: &str) -> (r: Result<Template, ParseError>)
    ensures
        match (r, template_result(input@)) {
            (Ok(t), Ok(m)) => t@ == m,
            (Err(ParseError::Syntax { line, column, message }), Err((l, c, msg))) => line == l
                && column == c && message@ == msg,
            _ => false,
        },
{
    let s = crate::text::chars_of(input);
    let (segments, e) = parse_segments(&s, 0, false);
    if e == s.len() {
        Ok(Template { segments })
    } else {
        let (line, column) = calculate_position(&s, e);
        let message = unexpected_char_message(s[e]);
        Err(ParseError::Syntax { line, column, message })
    }
}

} // verus!
