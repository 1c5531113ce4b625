//! The rules a parsed file must keep beyond its grammar: terms and phrases,
//! `:from` and `:match`, and the `*` default markers.
use vstd::prelude::*;
use crate::text::{is_ascii_digit, join, chars_of, push_str, to_string, chars_eq, string_of};
use crate::ast::{
    MatchKeyModel, MatchBranchModel, VariantEntryModel, PhraseBodyModel, PhraseDefinitionModel,
    MatchKey, MatchBranch, VariantEntry, PhraseBody, PhraseDefinition, DefinitionKind, strings_view,
    match_keys_view, branches_view, entries_model, definitions_view,
};
use crate::errors::ParseError;

verus! {

// ---------------------------------------------------------------------------
// Rules
// ---------------------------------------------------------------------------

/// The first of `mps` that is not among `params`.
pub open spec fn first_undeclared(mps: Seq<Seq<char>>, params: Seq<Seq<char>>) -> Option<Seq<char>>
    decreases mps.len(),
{
    if mps.len() == 0 {
        None
    } else if !params.contains(mps[0]) {
        Some(mps[0])
    } else {
        first_undeclared(mps.drop_first(), params)
    }
}

/// Whether some key holds a `.`.
pub open spec fn any_dotted(keys: Seq<Seq<char>>) -> bool {
    exists|i: int| 0 <= i < keys.len() && keys[i].contains('.')
}

/// Whether a dot-separated component of `k` starts with a digit.
pub open spec fn has_numeric_component(k: Seq<char>) -> bool {
    ||| (k.len() > 0 && is_ascii_digit(k[0]))
    ||| exists|i: int| 0 <= i < k.len() - 1 && #[trigger] k[i] == '.' && is_ascii_digit(k[i + 1])
}

/// The first key with a component that starts with a digit.
pub open spec fn first_numeric_key(keys: Seq<Seq<char>>) -> Option<Seq<char>>
    decreases keys.len(),
{
    if keys.len() == 0 {
        None
    } else if has_numeric_component(keys[0]) {
        Some(keys[0])
    } else {
        first_numeric_key(keys.drop_first())
    }
}

pub open spec fn first_key(keys: Seq<Seq<char>>) -> Seq<char> {
    if keys.len() > 0 {
        keys[0]
    } else {
        seq![]
    }
}

/// The first error of a variant block: a `*` on a key with a dot, a numeric
/// key in a term, then more than one `*` (`count` is the number of `*` seen
/// before `es`).
pub open spec fn variant_block_error(name: Seq<char>, term: bool, es: Seq<VariantEntryModel>, count: nat) -> Option<Seq<char>>
    decreases es.len(),
{
    if es.len() == 0 {
        if count > 1 {
            Some(
                "multiple '*' default markers in variant block of '"@ + name
                    + "' — at most one is allowed"@,
            )
        } else {
            None
        }
    } else {
        let e = es[0];
        if e.is_default && any_dotted(e.keys) {
            Some(
                "'*' cannot be used on multi-dimensional key '"@ + first_key(e.keys)
                    + "' in definition '"@ + name + "'"@,
            )
        } else if term && first_numeric_key(e.keys) is Some {
            Some(
                "term variant keys must be named identifiers — use ':match' for numeric branching (found '"@
                    + first_numeric_key(e.keys)->0 + "' in '"@ + name + "')"@,
            )
        } else {
            variant_block_error(
                name,
                term,
                es.drop_first(),
                count + if e.is_default {
                    1nat
                } else {
                    0nat
                },
            )
        }
    }
}

/// The pieces of `v` between dots (`split('.')`).
pub open spec fn split_dots(v: Seq<char>) -> Seq<Seq<char>>
    decreases v.len(),
{
    if v.len() == 0 {
        seq![seq![]]
    } else {
        let r = split_dots(v.drop_last());
        if v.last() == '.' {
            r.push(seq![])
        } else {
            r.update(r.len() - 1, r.last().push(v.last()))
        }
    }
}

/// The value a key marks as default in dimension `d`, if it does.
pub open spec fn key_default_at(k: MatchKeyModel, d: int) -> Option<Seq<char>> {
    if 0 <= d < k.default_dimensions.len() && k.default_dimensions[d] && d < split_dots(
        k.value,
    ).len() {
        Some(split_dots(k.value)[d])
    } else {
        None
    }
}

/// All keys of the branches, in order.
pub open spec fn flat_keys(bs: Seq<MatchBranchModel>) -> Seq<MatchKeyModel>
    decreases bs.len(),
{
    if bs.len() == 0 {
        seq![]
    } else {
        flat_keys(bs.drop_last()) + bs.last().keys
    }
}

/// The default values the keys mark in dimension `d`, in order.
pub open spec fn defaults_in(keys: Seq<MatchKeyModel>, d: int) -> Seq<Seq<char>>
    decreases keys.len(),
{
    if keys.len() == 0 {
        seq![]
    } else {
        let r = defaults_in(keys.drop_last(), d);
        match key_default_at(keys.last(), d) {
            Some(x) => r.push(x),
            None => r,
        }
    }
}

/// The values of `xs` without repeats, each where it first occurs.
pub open spec fn distinct(xs: Seq<Seq<char>>) -> Seq<Seq<char>>
    decreases xs.len(),
{
    if xs.len() == 0 {
        seq![]
    } else {
        let r = distinct(xs.drop_last());
        if r.contains(xs.last()) {
            r
        } else {
            r.push(xs.last())
        }
    }
}

/// The first dimension from `d` on whose distinct default values are not
/// exactly one, with its message.
pub open spec fn match_defaults_error(name: Seq<char>, params: Seq<Seq<char>>, bs: Seq<MatchBranchModel>, d: int) -> Option<Seq<char>>
    decreases params.len() - d,
{
    if d < 0 || d >= params.len() {
        None
    } else {
        let vals = distinct(defaults_in(flat_keys(bs), d));
        if vals.len() == 0 {
            Some(
                "no '*' default branch for :match parameter '"@ + params[d] + "' in phrase '"@
                    + name + "' — exactly one branch must be marked with '*'"@,
            )
        } else if vals.len() > 1 {
            Some(
                "multiple '*' default values for :match parameter '"@ + params[d]
                    + "' in phrase '"@ + name + "' — exactly one is allowed (found: "@ + join(
                    vals,
                    ", "@,
                ) + ")"@,
            )
        } else {
            match_defaults_error(name, params, bs, d + 1)
        }
    }
}

/// The message of the first rule a definition breaks, if any.
pub open spec fn definition_error(d: PhraseDefinitionModel) -> Option<Seq<char>> {
    if d.has_empty_parens {
        Some(
            "empty parameter list on '"@ + d.name
                + "' — use a term instead (remove the parentheses)"@,
        )
    } else if d.is_phrase && d.body is Variants {
        Some(
            "phrase '"@ + d.name
                + "' cannot have a variant block — use :match($param) for branching"@,
        )
    } else if !d.is_phrase && d.from_param is Some {
        Some(":from requires parameters on definition '"@ + d.name + "'"@)
    } else if !d.is_phrase && d.match_params.len() > 0 {
        Some(":match requires parameters on definition '"@ + d.name + "'"@)
    } else {
        match first_undeclared(d.match_params, d.parameters) {
            Some(mp) => Some(
                ":match parameter '"@ + mp + "' is not declared in phrase '"@ + d.name
                    + "' — add it to the parameter list"@,
            ),
            None => match d.body {
                PhraseBodyModel::Variants(es) => variant_block_error(d.name, !d.is_phrase, es, 0),
                PhraseBodyModel::Match(bs) => match_defaults_error(d.name, d.match_params, bs, 0),
                PhraseBodyModel::Simple(_) => None,
            },
        }
    }
}

/// The message of the first rule that the first offending definition breaks.
pub open spec fn validate_defs(ds: Seq<PhraseDefinitionModel>) -> Option<Seq<char>>
    decreases ds.len(),
{
    if ds.len() == 0 {
        None
    } else {
        match definition_error(ds[0]) {
            Some(m) => Some(m),
            None => validate_defs(ds.drop_first()),
        }
    }
}

// ---------------------------------------------------------------------------
// Checks
// ---------------------------------------------------------------------------

fn string_in(v: &Vec<String>, x: &String) -> (r: bool)
    ensures
        r == strings_view(v@).contains(x@),
{
    let xs = chars_of(x.as_str());
    let mut i: usize = 0;
    while i < v.len()
        invariant
            i <= v.len(),
            xs@ == x@,
            forall|j: int| 0 <= j < i ==> v@[j]@ != x@,
        decreases v.len() - i,
    {
        let vs = chars_of(v[i].as_str());
        if chars_eq(vs.as_slice(), xs.as_slice()) {
            assert(strings_view(v@)[i as int] == x@);
            return true;
        }
        i = i + 1;
    }
    proof {
        if strings_view(v@).contains(x@) {
            let j = choose|j: int| 0 <= j < strings_view(v@).len() && strings_view(v@)[j] == x@;
            assert(v@[j]@ == x@);
        }
    }
    false
}

fn find_undeclared(mps: &Vec<String>, params: &Vec<String>) -> (r: Option<usize>)
    ensures
        match r {
            Some(i) => i < mps.len() && first_undeclared(strings_view(mps@), strings_view(params@))
                == Some(mps@[i as int]@),
            None => first_undeclared(strings_view(mps@), strings_view(params@)) is None,
        },
{
    let ghost ps = strings_view(params@);
    let mut i: usize = 0;
    assert(strings_view(mps@).skip(0) =~= strings_view(mps@));
    while i < mps.len()
        invariant
            i <= mps.len(),
            ps == strings_view(params@),
            first_undeclared(strings_view(mps@), ps) == first_undeclared(
                strings_view(mps@).skip(i as int),
                ps,
            ),
        decreases mps.len() - i,
    {
        let ghost rest = strings_view(mps@).skip(i as int);
        assert(rest[0] == mps@[i as int]@);
        if !string_in(params, &mps[i]) {
            return Some(i);
        }
        assert(rest.drop_first() =~= strings_view(mps@).skip(i as int + 1));
        i = i + 1;
    }
    assert(strings_view(mps@).skip(i as int) =~= seq![]);
    None
}

fn has_dot(k: &String) -> (r: bool)
    ensures
        r == k@.contains('.'),
{
    let cs = chars_of(k.as_str());
    let mut i: usize = 0;
    while i < cs.len()
        invariant
            i <= cs.len(),
            cs@ == k@,
            forall|j: int| 0 <= j < i ==> cs@[j] != '.',
        decreases cs.len() - i,
    {
        if cs[i] == '.' {
            return true;
        }
        i = i + 1;
    }
    false
}

fn keys_any_dotted(keys: &Vec<String>) -> (r: bool)
    ensures
        r == any_dotted(strings_view(keys@)),
{
    let mut i: usize = 0;
    while i < keys.len()
        invariant
            i <= keys.len(),
            forall|j: int| 0 <= j < i ==> !keys@[j]@.contains('.'),
        decreases keys.len() - i,
    {
        if has_dot(&keys[i]) {
            assert(strings_view(keys@)[i as int] == keys@[i as int]@);
            return true;
        }
        i = i + 1;
    }
    proof {
        if any_dotted(strings_view(keys@)) {
            let j = choose|j: int|
                0 <= j < strings_view(keys@).len() && strings_view(keys@)[j].contains('.');
            assert(strings_view(keys@)[j] == keys@[j]@);
        }
    }
    false
}

fn numeric_component(k: &String) -> (r: bool)
    ensures
        r == has_numeric_component(k@),
{
    let cs = chars_of(k.as_str());
    if cs.len() > 0 && crate::text::char_is_ascii_digit(cs[0]) {
        return true;
    }
    let mut i: usize = 0;
    while i < cs.len() && i + 1 < cs.len()
        invariant
            i <= cs.len(),
            cs@ == k@,
            !(cs@.len() > 0 && is_ascii_digit(cs@[0])),
            forall|j: int| 0 <= j < i && j < cs.len() - 1 ==> !(#[trigger] cs@[j] == '.' && is_ascii_digit(
                cs@[j + 1],
            )),
        decreases cs.len() - i,
    {
        if cs[i] == '.' && crate::text::char_is_ascii_digit(cs[i + 1]) {
            return true;
        }
        i = i + 1;
    }
    false
}

fn find_numeric_key(keys: &Vec<String>) -> (r: Option<usize>)
    ensures
        match r {
            Some(i) => i < keys.len() && first_numeric_key(strings_view(keys@)) == Some(
                keys@[i as int]@,
            ),
            None => first_numeric_key(strings_view(keys@)) is None,
        },
{
    let mut i: usize = 0;
    assert(strings_view(keys@).skip(0) =~= strings_view(keys@));
    while i < keys.len()
        invariant
            i <= keys.len(),
            first_numeric_key(strings_view(keys@)) == first_numeric_key(
                strings_view(keys@).skip(i as int),
            ),
        decreases keys.len() - i,
    {
        let ghost rest = strings_view(keys@).skip(i as int);
        assert(rest[0] == keys@[i as int]@);
        if numeric_component(&keys[i]) {
            return Some(i);
        }
        assert(rest.drop_first() =~= strings_view(keys@).skip(i as int + 1));
        i = i + 1;
    }
    assert(strings_view(keys@).skip(i as int) =~= seq![]);
    None
}

fn syntax(message: String) -> (r: ParseError)
    ensures
        r == (ParseError::Syntax { line: 0, column: 0, message }),
{
    ParseError::Syntax { line: 0, column: 0, message }
}

/// `a` + `x` + `b`.
fn message3(a: &str, x: &str, b: &str) -> (r: String)
    ensures
        r@ == a@ + x@ + b@,
{
    let mut m = to_string(a);
    push_str(&mut m, x);
    push_str(&mut m, b);
    m
}

/// `a` + `x` + `b` + `y` + `c`.
fn message5(a: &str, x: &str, b: &str, y: &str, c: &str) -> (r: String)
    ensures
        r@ == a@ + x@ + b@ + y@ + c@,
{
    let mut m = to_string(a);
    push_str(&mut m, x);
    push_str(&mut m, b);
    push_str(&mut m, y);
    push_str(&mut m, c);
    m
}

fn check_variant_block(name: &String, term: bool, es: &Vec<VariantEntry>) -> (r: Option<String>)
    ensures
        match r {
            Some(m) => variant_block_error(name@, term, entries_model(es@), 0) == Some(m@),
            None => variant_block_error(name@, term, entries_model(es@), 0) is None,
        },
{
    let mut count: usize = 0;
    let mut i: usize = 0;
    assert(entries_model(es@).skip(0) =~= entries_model(es@));
    while i < es.len()
        invariant
            i <= es.len(),
            count <= i,
            variant_block_error(name@, term, entries_model(es@), 0) == variant_block_error(
                name@,
                term,
                entries_model(es@).skip(i as int),
                count as nat,
            ),
        decreases es.len() - i,
    {
        let ghost rest = entries_model(es@).skip(i as int);
        let e = &es[i];
        assert(rest[0] == e@);
        if e.is_default && keys_any_dotted(&e.keys) {
            let m = if e.keys.len() > 0 {
                message5(
                    "'*' cannot be used on multi-dimensional key '",
                    e.keys[0].as_str(),
                    "' in definition '",
                    name.as_str(),
                    "'",
                )
            } else {
                message5(
                    "'*' cannot be used on multi-dimensional key '",
                    "",
                    "' in definition '",
                    name.as_str(),
                    "'",
                )
            };
            proof {
                if e.keys.len() > 0 {
                    assert(first_key(e@.keys) == e.keys@[0]@);
                } else {
                    assert(first_key(e@.keys) =~= ""@);
                }
            }
            return Some(m);
        }
        if term {
            match find_numeric_key(&e.keys) {
                Some(k) => {
                    let m = message5(
                        "term variant keys must be named identifiers — use ':match' for numeric branching (found '",
                        e.keys[k].as_str(),
                        "' in '",
                        name.as_str(),
                        "')",
                    );
                    return Some(m);
                },
                None => {},
            }
        }
        assert(rest.drop_first() =~= entries_model(es@).skip(i as int + 1));
        if e.is_default {
            count = count + 1;
        }
        i = i + 1;
    }
    assert(entries_model(es@).skip(i as int) =~= seq![]);
    if count > 1 {
        Some(
            message3(
                "multiple '*' default markers in variant block of '",
                name.as_str(),
                "' — at most one is allowed",
            ),
        )
    } else {
        None
    }
}

proof fn lemma_split_dots_nonempty(v: Seq<char>)
    ensures
        split_dots(v).len() >= 1,
    decreases v.len(),
{
    if v.len() > 0 {
        lemma_split_dots_nonempty(v.drop_last());
    }
}

/// The pieces of `v` between dots.
pub fn split_dot_parts(v: &Vec<char>) -> (r: Vec<Vec<char>>)
    ensures
        r.deep_view() == split_dots(v@),
{
    let mut parts: Vec<Vec<char>> = Vec::new();
    let mut cur: Vec<char> = Vec::new();
    let mut i: usize = 0;
    while i < v.len()
        invariant
            i <= v.len(),
            parts.deep_view().push(cur@) == split_dots(v@.take(i as int)),
        decreases v.len() - i,
    {
        let ghost before = parts.deep_view();
        let ghost cur_before = cur@;
        proof {
            lemma_split_dots_nonempty(v@.take(i as int));
            assert(v@.take(i as int + 1).drop_last() =~= v@.take(i as int));
        }
        if v[i] == '.' {
            let done = cur;
            parts.push(done);
            cur = Vec::new();
            assert(parts.deep_view()[before.len() as int] == parts@[before.len() as int]@);
            assert(parts.deep_view() =~= before.push(cur_before));
            assert(parts.deep_view().push(cur@) =~= split_dots(v@.take(i as int + 1)));
        } else {
            cur.push(v[i]);
            assert(parts.deep_view().push(cur@) =~= split_dots(v@.take(i as int + 1)));
        }
        i = i + 1;
    }
    let ghost before = parts.deep_view();
    let ghost cur_before = cur@;
    parts.push(cur);
    assert(parts.deep_view()[before.len() as int] == parts@[before.len() as int]@);
    assert(parts.deep_view() =~= before.push(cur_before));
    assert(v@.take(v.len() as int) =~= v@);
    parts
}

fn default_at(k: &MatchKey, d: usize) -> (r: Option<Vec<char>>)
    ensures
        match r {
            Some(x) => key_default_at(k@, d as int) == Some(x@),
            None => key_default_at(k@, d as int) is None,
        },
{
    if d < k.default_dimensions.len() && k.default_dimensions[d] {
        let cs = chars_of(k.value.as_str());
        let parts = split_dot_parts(&cs);
        if d < parts.len() {
            assert(parts.deep_view()[d as int] == parts@[d as int]@);
            Some(crate::text::slice_range(parts[d].as_slice(), 0, parts[d].len()))
        } else {
            None
        }
    } else {
        None
    }
}

fn contains_chars(v: &Vec<Vec<char>>, x: &Vec<char>) -> (r: bool)
    ensures
        r == v.deep_view().contains(x@),
{
    let mut i: usize = 0;
    while i < v.len()
        invariant
            i <= v.len(),
            forall|j: int| 0 <= j < i ==> v.deep_view()[j] != x@,
        decreases v.len() - i,
    {
        assert(v.deep_view()[i as int] == v@[i as int]@);
        if chars_eq(v[i].as_slice(), x.as_slice()) {
            return true;
        }
        i = i + 1;
    }
    false
}

proof fn lemma_flat_keys_step(bs: Seq<MatchBranchModel>, i: int)
    requires
        0 <= i < bs.len(),
    ensures
        flat_keys(bs.take(i + 1)) == flat_keys(bs.take(i)) + bs[i].keys,
{
    assert(bs.take(i + 1).drop_last() =~= bs.take(i));
}

/// The distinct default values of dimension `d`, in order of first occurrence.
fn dimension_defaults(bs: &Vec<MatchBranch>, d: usize) -> (r: Vec<Vec<char>>)
    ensures
        r.deep_view() == distinct(defaults_in(flat_keys(branches_view(bs@)), d as int)),
{
    let ghost bv = branches_view(bs@);
    let mut out: Vec<Vec<char>> = Vec::new();
    let mut bi: usize = 0;
    while bi < bs.len()
        invariant
            bi <= bs.len(),
            bv == branches_view(bs@),
            out.deep_view() == distinct(defaults_in(flat_keys(bv.take(bi as int)), d as int)),
        decreases bs.len() - bi,
    {
        let keys = &bs[bi].keys;
        let ghost kv = match_keys_view(keys@);
        assert(bv[bi as int].keys == kv);
        let mut ki: usize = 0;
        while ki < keys.len()
            invariant
                bi < bs.len(),
                ki <= keys.len(),
                keys == &bs@[bi as int].keys,
                kv == match_keys_view(keys@),
                out.deep_view() == distinct(
                    defaults_in(flat_keys(bv.take(bi as int)) + kv.take(ki as int), d as int),
                ),
            decreases keys.len() - ki,
        {
            let ghost prev = flat_keys(bv.take(bi as int)) + kv.take(ki as int);
            let ghost next = flat_keys(bv.take(bi as int)) + kv.take(ki as int + 1);
            assert(next.drop_last() =~= prev);
            assert(next.last() == keys@[ki as int]@);
            match default_at(&keys[ki], d) {
                Some(x) => {
                    assert(defaults_in(next, d as int) == defaults_in(prev, d as int).push(x@));
                    assert(defaults_in(next, d as int).drop_last() =~= defaults_in(prev, d as int));
                    if !contains_chars(&out, &x) {
                        let ghost before = out.deep_view();
                        let ghost xv = x@;
                        out.push(x);
                        assert(out.deep_view()[before.len() as int] == out@[before.len() as int]@);
                        assert(out.deep_view() =~= before.push(xv));
                    }
                },
                None => {},
            }
            ki = ki + 1;
        }
        proof {
            lemma_flat_keys_step(bv, bi as int);
            assert(kv.take(ki as int) =~= kv);
        }
        bi = bi + 1;
    }
    assert(bv.take(bi as int) =~= bv);
    out
}

fn check_match_defaults(name: &String, params: &Vec<String>, bs: &Vec<MatchBranch>) -> (r: Option<String>)
    ensures
        match r {
            Some(m) => match_defaults_error(name@, strings_view(params@), branches_view(bs@), 0)
                == Some(m@),
            None => match_defaults_error(name@, strings_view(params@), branches_view(bs@), 0) is None,
        },
{
    let mut d: usize = 0;
    while d < params.len()
        invariant
            d <= params.len(),
            match_defaults_error(name@, strings_view(params@), branches_view(bs@), 0)
                == match_defaults_error(name@, strings_view(params@), branches_view(bs@), d as int),
        decreases params.len() - d,
    {
        let vals = dimension_defaults(bs, d);
        assert(strings_view(params@)[d as int] == params@[d as int]@);
        if vals.len() == 0 {
            return Some(
                message5(
                    "no '*' default branch for :match parameter '",
                    params[d].as_str(),
                    "' in phrase '",
                    name.as_str(),
                    "' — exactly one branch must be marked with '*'",
                ),
            );
        }
        if vals.len() > 1 {
            let joined = crate::text::join_chars(&vals, chars_of(", ").as_slice());
            let js = string_of(joined.as_slice());
            let mut m = message5(
                "multiple '*' default values for :match parameter '",
                params[d].as_str(),
                "' in phrase '",
                name.as_str(),
                "' — exactly one is allowed (found: ",
            );
            push_str(&mut m, js.as_str());
            push_str(&mut m, ")");
            return Some(m);
        }
        d = d + 1;
    }
    None
}

fn check_definition(d: &PhraseDefinition) -> (r: Option<String>)
    ensures
        match r {
            Some(m) => definition_error(d@) == Some(m@),
            None => definition_error(d@) is None,
        },
{
    let is_phrase = d.kind == DefinitionKind::Phrase;
    if d.has_empty_parens {
        return Some(
            message3(
                "empty parameter list on '",
                d.name.as_str(),
                "' — use a term instead (remove the parentheses)",
            ),
        );
    }
    if is_phrase && matches!(d.body, PhraseBody::Variants(_)) {
        return Some(
            message3(
                "phrase '",
                d.name.as_str(),
                "' cannot have a variant block — use :match($param) for branching",
            ),
        );
    }
    if !is_phrase && d.from_param.is_some() {
        return Some(message3(":from requires parameters on definition '", d.name.as_str(), "'"));
    }
    if !is_phrase && d.match_params.len() > 0 {
        return Some(message3(":match requires parameters on definition '", d.name.as_str(), "'"));
    }
    match find_undeclared(&d.match_params, &d.parameters) {
        Some(i) => {
            return Some(
                message5(
                    ":match parameter '",
                    d.match_params[i].as_str(),
                    "' is not declared in phrase '",
                    d.name.as_str(),
                    "' — add it to the parameter list",
                ),
            );
        },
        None => {},
    }
    match &d.body {
        PhraseBody::Variants(es) => check_variant_block(&d.name, !is_phrase, es),
        PhraseBody::Match(bs) => check_match_defaults(&d.name, &d.match_params, bs),
        PhraseBody::Simple(_) => None,
    }
}

/// Checks the rules on parsed definitions; the error is the first rule the
/// first offending definition breaks, at line 0, column 0.
pub fn validate_definitions(defs: &Vec<PhraseDefinition>) -> (r: Result<(), ParseError>)
    ensures
        match r {
            Ok(()) => validate_defs(definitions_view(defs@)) is None,
            Err(e) => validate_defs(definitions_view(defs@)) matches Some(m) && e == (
            ParseError::Syntax { line: 0, column: 0, message: e->message })
                && e->message@ == m,
        },
{
    let mut i: usize = 0;
    assert(definitions_view(defs@).skip(0) =~= definitions_view(defs@));
    while i < defs.len()
        invariant
            i <= defs.len(),
            validate_defs(definitions_view(defs@)) == validate_defs(
                definitions_view(defs@).skip(i as int),
            ),
        decreases defs.len() - i,
    {
        let ghost rest = definitions_view(defs@).skip(i as int);
        assert(rest[0] == defs@[i as int]@);
        match check_definition(&defs[i]) {
            Some(m) => {
                return Err(syntax(m));
            },
            None => {},
        }
        assert(rest.drop_first() =~= definitions_view(defs@).skip(i as int + 1));
        i = i + 1;
    }
    assert(definitions_view(defs@).skip(i as int) =~= seq![]);
    Ok(())
}

} // verus!
