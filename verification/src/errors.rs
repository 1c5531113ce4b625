//! Errors and warnings of parsing, loading and evaluation, with their
//! messages, and "did you mean" suggestions.
use vstd::prelude::*;
use crate::ast::strings_view;
use crate::text::{int_decimal, join, utf8_len};

verus! {

// ---------------------------------------------------------------------------
// Text helpers
// ---------------------------------------------------------------------------

/// What `{:?}` (Debug) prints for a string: the string quoted, with its
/// special characters escaped.
pub uninterp spec fn debug_text(s: Seq<char>) -> Seq<char>;

/// `<str as Debug>::fmt` through `format!("{:?}")`: the quoted, escaped form
/// of a string. The contract names the result; the escaping rules are not
/// stated.
#[verifier::external_body]
fn debug_quoted(s: &str) -> (r: String)
    ensures
        r@ == debug_text(s@),
{
    format!("{:?}", s)
}

/// Strings joined with a separator.
pub fn join_strings(v: &Vec<String>, sep: &str) -> (r: String)
    ensures
        r@ == join(strings_view(v@), sep@),
{
    let mut parts: Vec<Vec<char>> = Vec::new();
    let mut i: usize = 0;
    while i < v.len()
        invariant
            i <= v.len(),
            parts.deep_view() == strings_view(v@).take(i as int),
        decreases v.len() - i,
    {
        let c = crate::text::chars_of(v[i].as_str());
        let ghost old = parts.deep_view();
        assert(c.deep_view() =~= c@);
        parts.push(c);
        assert(parts.deep_view() =~~= old.push(v@[i as int]@));
        assert(strings_view(v@).take(i as int + 1) =~= strings_view(v@).take(i as int).push(
            v@[i as int]@,
        ));
        i = i + 1;
    }
    assert(strings_view(v@).take(v.len() as int) =~= strings_view(v@));
    let s = crate::text::chars_of(sep);
    let j = crate::text::join_chars(&parts, &s);
    crate::text::string_of(&j)
}

/// Debug form of a list of strings: `["a", "b"]`.
pub open spec fn debug_list(v: Seq<Seq<char>>) -> Seq<char> {
    "["@ + join(v.map_values(|s: Seq<char>| debug_text(s)), ", "@) + "]"@
}

/// Debug form of a list of lists of strings.
pub open spec fn debug_list2(v: Seq<Seq<Seq<char>>>) -> Seq<char> {
    "["@ + join(v.map_values(|l: Seq<Seq<char>>| debug_list(l)), ", "@) + "]"@
}

fn debug_list_exec(v: &Vec<String>) -> (r: String)
    ensures
        r@ == debug_list(strings_view(v@)),
{
    let mut parts: Vec<String> = Vec::new();
    let mut i: usize = 0;
    while i < v.len()
        invariant
            i <= v.len(),
            strings_view(parts@) == strings_view(v@).take(i as int).map_values(
                |s: Seq<char>| debug_text(s),
            ),
        decreases v.len() - i,
    {
        let d = debug_quoted(v[i].as_str());
        let ghost old = strings_view(parts@);
        parts.push(d);
        assert(strings_view(parts@) =~= old.push(debug_text(v@[i as int]@)));
        assert(strings_view(v@).take(i as int + 1).map_values(|s: Seq<char>| debug_text(s))
            =~= strings_view(v@).take(i as int).map_values(|s: Seq<char>| debug_text(s)).push(
            debug_text(v@[i as int]@),
        ));
        i = i + 1;
    }
    assert(strings_view(v@).take(v.len() as int) =~= strings_view(v@));
    let mut r = crate::text::to_string("[");
    let inner = join_strings(&parts, ", ");
    crate::text::push_str(&mut r, inner.as_str());
    crate::text::push_str(&mut r, "]");
    r
}

pub open spec fn lists_view(v: Seq<Vec<String>>) -> Seq<Seq<Seq<char>>> {
    v.map_values(|l: Vec<String>| strings_view(l@))
}

fn debug_list2_exec(v: &Vec<Vec<String>>) -> (r: String)
    ensures
        r@ == debug_list2(lists_view(v@)),
{
    let mut parts: Vec<String> = Vec::new();
    let mut i: usize = 0;
    while i < v.len()
        invariant
            i <= v.len(),
            strings_view(parts@) == lists_view(v@).take(i as int).map_values(
                |l: Seq<Seq<char>>| debug_list(l),
            ),
        decreases v.len() - i,
    {
        let d = debug_list_exec(&v[i]);
        let ghost old = strings_view(parts@);
        parts.push(d);
        assert(strings_view(parts@) =~= old.push(debug_list(strings_view(v@[i as int]@))));
        assert(lists_view(v@).take(i as int + 1).map_values(|l: Seq<Seq<char>>| debug_list(l))
            =~= lists_view(v@).take(i as int).map_values(|l: Seq<Seq<char>>| debug_list(l)).push(
            debug_list(strings_view(v@[i as int]@)),
        ));
        i = i + 1;
    }
    assert(lists_view(v@).take(v.len() as int) =~= lists_view(v@));
    let mut r = crate::text::to_string("[");
    let inner = join_strings(&parts, ", ");
    crate::text::push_str(&mut r, inner.as_str());
    crate::text::push_str(&mut r, "]");
    r
}

// ---------------------------------------------------------------------------
// Suggestions
// ---------------------------------------------------------------------------

pub open spec fn min3(a: nat, b: nat, c: nat) -> nat {
    if a <= b && a <= c {
        a
    } else if b <= c {
        b
    } else {
        c
    }
}

/// Levenshtein distance: the least number of single-character insertions,
/// deletions and substitutions that turn `a` into `b`.
pub open spec fn edit_distance(a: Seq<char>, b: Seq<char>) -> nat
    decreases a.len() + b.len(),
{
    if a.len() == 0 {
        b.len()
    } else if b.len() == 0 {
        a.len()
    } else {
        min3(
            edit_distance(a.drop_last(), b) + 1,
            edit_distance(a, b.drop_last()) + 1,
            edit_distance(a.drop_last(), b.drop_last()) + if a.last() == b.last() {
                0nat
            } else {
                1nat
            },
        )
    }
}

/// `strsim::levenshtein`: the Levenshtein distance between two strings,
/// counted in characters.
#[verifier::external_body]
fn levenshtein(a: &str, b: &str) -> (r: usize)
    ensures
        r as nat == edit_distance(a@, b@),
{
    strsim::levenshtein(a, b)
}

/// Largest edit distance for a suggestion: 1 for keys of at most 3 bytes,
/// else 2.
pub open spec fn max_suggestion_distance(target: Seq<char>) -> nat {
    if utf8_len(target) <= 3 {
        1
    } else {
        2
    }
}

/// The candidates at edit distance exactly `d` from `target`, in order.
pub open spec fn at_distance(target: Seq<char>, available: Seq<Seq<char>>, d: nat) -> Seq<Seq<char>> {
    available.filter(|c: Seq<char>| edit_distance(target, c) == d)
}

/// "Did you mean" suggestions: up to three candidates at edit distance 1
/// to the largest allowed distance, nearest first and otherwise in the given
/// order.
pub open spec fn suggestions_spec(target: Seq<char>, available: Seq<Seq<char>>) -> Seq<Seq<char>> {
    let ones = at_distance(target, available, 1);
    let all = if max_suggestion_distance(target) == 1 {
        ones
    } else {
        ones + at_distance(target, available, 2)
    };
    if all.len() <= 3 {
        all
    } else {
        all.take(3)
    }
}

/// Computes "did you mean" suggestions for `target` among `available`
/// using Levenshtein distance: up to 3 candidates at distance at most 2 (1
/// for keys of at most 3 bytes), nearest first.
pub fn compute_suggestions(target: &str, available: &Vec<String>) -> (r: Vec<String>)
    ensures
        strings_view(r@) == suggestions_spec(target@, strings_view(available@)),
{
    let tchars = crate::text::chars_of(target);
    let max_distance: usize = if crate::text::utf8_byte_len(&tchars) <= 3 {
        1
    } else {
        2
    };
    proof {
        crate::text::lemma_utf8_len_bound(target@);
    }
    assert(max_distance == max_suggestion_distance(target@));
    let ghost av = strings_view(available@);
    let mut ones: Vec<String> = Vec::new();
    let mut twos: Vec<String> = Vec::new();
    let mut i: usize = 0;
    while i < available.len()
        invariant
            i <= available.len(),
            av == strings_view(available@),
            max_distance == max_suggestion_distance(target@),
            strings_view(ones@) == at_distance(target@, av.take(i as int), 1),
            strings_view(twos@) == if max_distance == 2 {
                at_distance(target@, av.take(i as int), 2)
            } else {
                Seq::<Seq<char>>::empty()
            },
        decreases available.len() - i,
    {
        let dist = levenshtein(target, available[i].as_str());
        let ghost c = av[i as int];
        assert(av.take(i as int + 1).drop_last() =~= av.take(i as int));
        assert(av.take(i as int + 1).last() == c);
        proof {
            reveal(Seq::filter);
        }
        if dist == 1 {
            let ghost old = strings_view(ones@);
            ones.push(available[i].clone());
            assert(strings_view(ones@) =~= old.push(c));
        } else if dist == 2 && max_distance == 2 {
            let ghost old = strings_view(twos@);
            twos.push(available[i].clone());
            assert(strings_view(twos@) =~= old.push(c));
        }
        i = i + 1;
    }
    assert(av.take(available.len() as int) =~= av);
    let mut r: Vec<String> = Vec::new();
    let mut k: usize = 0;
    let ghost all = strings_view(ones@) + strings_view(twos@);
    assert(all == if max_suggestion_distance(target@) == 1 {
        at_distance(target@, av, 1)
    } else {
        at_distance(target@, av, 1) + at_distance(target@, av, 2)
    }) by {
        if max_distance == 1 {
            assert(all =~= strings_view(ones@));
        }
    }
    while k < ones.len() && r.len() < 3
        invariant
            k <= ones.len(),
            r.len() == k,
            k <= 3,
            strings_view(r@) == all.take(k as int),
            all == strings_view(ones@) + strings_view(twos@),
        decreases ones.len() - k,
    {
        r.push(ones[k].clone());
        assert(strings_view(r@) =~= all.take(k as int + 1));
        k = k + 1;
    }
    let mut m: usize = 0;
    while m < twos.len() && r.len() < 3
        invariant
            m <= twos.len(),
            r.len() <= 3,
            r.len() < 3 ==> k == ones.len(),
            r.len() == k + m,
            k <= ones.len(),
            strings_view(r@) == all.take(r.len() as int),
            all == strings_view(ones@) + strings_view(twos@),
        decreases twos.len() - m,
    {
        r.push(twos[m].clone());
        assert(strings_view(r@) =~= all.take(r.len() as int));
        m = m + 1;
    }
    assert(r.len() == 3 || r.len() == all.len());
    proof {
        if r.len() == all.len() {
            assert(all.take(r.len() as int) =~= all);
        }
    }
    r
}

/// `"; did you mean: a, b?"`, or nothing when there are no suggestions.
pub open spec fn suggestions_text(s: Seq<Seq<char>>) -> Seq<char> {
    if s.len() == 0 {
        seq![]
    } else {
        "; did you mean: "@ + join(s, ", "@) + "?"@
    }
}

pub fn format_suggestions(suggestions: &Vec<String>) -> (r: String)
    ensures
        r@ == suggestions_text(strings_view(suggestions@)),
{
    if suggestions.len() == 0 {
        String::new()
    } else {
        let mut r = crate::text::to_string("; did you mean: ");
        let j = join_strings(suggestions, ", ");
        crate::text::push_str(&mut r, j.as_str());
        crate::text::push_str(&mut r, "?");
        r
    }
}

// ---------------------------------------------------------------------------
// Parse errors
// ---------------------------------------------------------------------------

/// An error that occurred during parsing.
#[derive(Debug, Clone)]
pub enum ParseError {
    /// A syntax error with location information.
    Syntax { line: usize, column: usize, message: String },
    /// Unexpected end of input.
    UnexpectedEof { line: usize, column: usize },
    /// Invalid UTF-8 in input.
    InvalidUtf8,
}

impl ParseError {
    /// The message of this error.
    pub open spec fn message_spec(&self) -> Seq<char> {
        match self {
            ParseError::Syntax { line, column, message } => "syntax error at "@ + int_decimal(
                *line as int,
            ) + ":"@ + int_decimal(*column as int) + ": "@ + message@,
            ParseError::UnexpectedEof { line, column } => "unexpected end of input at "@
                + int_decimal(*line as int) + ":"@ + int_decimal(*column as int),
            ParseError::InvalidUtf8 => "invalid UTF-8 in input"@,
        }
    }

    /// The message of this error, as its display shows it.
    pub fn message(&self) -> (r: String)
        ensures
            r@ == self.message_spec(),
    {
        match self {
            ParseError::Syntax { line, column, message } => {
                let mut r = crate::text::to_string("syntax error at ");
                crate::text::push_str(&mut r, crate::text::usize_to_decimal(*line).as_str());
                crate::text::push_str(&mut r, ":");
                crate::text::push_str(&mut r, crate::text::usize_to_decimal(*column).as_str());
                crate::text::push_str(&mut r, ": ");
                crate::text::push_str(&mut r, message.as_str());
                r
            },
            ParseError::UnexpectedEof { line, column } => {
                let mut r = crate::text::to_string("unexpected end of input at ");
                crate::text::push_str(&mut r, crate::text::usize_to_decimal(*line).as_str());
                crate::text::push_str(&mut r, ":");
                crate::text::push_str(&mut r, crate::text::usize_to_decimal(*column).as_str());
                r
            },
            ParseError::InvalidUtf8 => crate::text::to_string("invalid UTF-8 in input"),
        }
    }
}

// ---------------------------------------------------------------------------
// Load errors and warnings
// ---------------------------------------------------------------------------

/// An error that occurred while loading translations. Reading files is done
/// outside the library, which reports its I/O errors itself.
#[derive(Debug, Clone)]
pub enum LoadError {
    /// Parse error with file location context.
    Parse { path: String, line: usize, column: usize, message: String },
    /// Attempted to reload translations that were loaded from a string.
    NoPathForReload { language: String },
}

/// A warning produced by linting or validating translations.
#[derive(Debug, Clone)]
pub enum LoadWarning {
    /// Variant block on a `:from` phrase could be a simple template.
    RedundantPassthroughBlock { name: String, language: String },
    /// Explicit selector on a `:from` parameter matches the enclosing key.
    RedundantFromSelector { name: String, language: String, variant_key: String, parameter: String },
    /// Phrase without `:from` or tags uses a parameter with a selector.
    LikelyMissingFrom { name: String, language: String, parameter: String },
    /// `:from` phrase with identity template could use the body-less form.
    VerboseTransparentWrapper { name: String, language: String },
    /// A translated phrase has another parameter count than the source.
    ParameterCountMismatch {
        name: String,
        language: String,
        source_count: usize,
        translation_count: usize,
    },
    /// A translated phrase that the source language does not have.
    UnknownPhrase { name: String, language: String },
}

/// The contents of a load warning.
pub enum LoadWarningModel {
    RedundantPassthroughBlock { name: Seq<char>, language: Seq<char> },
    RedundantFromSelector { name: Seq<char>, language: Seq<char>, variant_key: Seq<char>, parameter: Seq<char> },
    LikelyMissingFrom { name: Seq<char>, language: Seq<char>, parameter: Seq<char> },
    VerboseTransparentWrapper { name: Seq<char>, language: Seq<char> },
    ParameterCountMismatch { name: Seq<char>, language: Seq<char>, source_count: nat, translation_count: nat },
    UnknownPhrase { name: Seq<char>, language: Seq<char> },
}

impl View for LoadWarning {
    type V = LoadWarningModel;

    open spec fn view(&self) -> LoadWarningModel {
        match self {
            LoadWarning::RedundantPassthroughBlock { name, language } => LoadWarningModel::RedundantPassthroughBlock {
                name: name@,
                language: language@,
            },
            LoadWarning::RedundantFromSelector { name, language, variant_key, parameter } => LoadWarningModel::RedundantFromSelector {
                name: name@,
                language: language@,
                variant_key: variant_key@,
                parameter: parameter@,
            },
            LoadWarning::LikelyMissingFrom { name, language, parameter } => LoadWarningModel::LikelyMissingFrom {
                name: name@,
                language: language@,
                parameter: parameter@,
            },
            LoadWarning::VerboseTransparentWrapper { name, language } => LoadWarningModel::VerboseTransparentWrapper {
                name: name@,
                language: language@,
            },
            LoadWarning::ParameterCountMismatch { name, language, source_count, translation_count } => LoadWarningModel::ParameterCountMismatch {
                name: name@,
                language: language@,
                source_count: *source_count as nat,
                translation_count: *translation_count as nat,
            },
            LoadWarning::UnknownPhrase { name, language } => LoadWarningModel::UnknownPhrase {
                name: name@,
                language: language@,
            },
        }
    }
}

pub open spec fn warnings_model(v: Seq<LoadWarning>) -> Seq<LoadWarningModel> {
    v.map_values(|w: LoadWarning| w@)
}

impl LoadWarning {
    /// The message of this warning, as its display shows it.
    pub open spec fn message_spec(&self) -> Seq<char> {
        match self {
            LoadWarning::RedundantPassthroughBlock { name, language } => "warning: phrase '"@ + name@ + "' in '"@
                + language@ + "' has redundant passthrough variant block; use simple :from template instead"@,
            LoadWarning::RedundantFromSelector { name, language, variant_key, parameter } => "warning: phrase '"@
                + name@ + "' in '"@ + language@ + "' has redundant selector ':"@ + variant_key@
                + "' on :from parameter '$"@ + parameter@ + "'; bare '${$"@ + parameter@
                + "}' resolves to the same value"@,
            LoadWarning::LikelyMissingFrom { name, language, parameter } => "warning: phrase '"@ + name@
                + "' in '"@ + language@ + "' uses parameter '$"@ + parameter@
                + "' without :from; tags and variants may be lost"@,
            LoadWarning::VerboseTransparentWrapper { name, language } => "warning: phrase '"@ + name@
                + "' in '"@ + language@
                + "' uses ':from($p) \"{$p}\"'; use body-less ':from($p);' instead"@,
            LoadWarning::ParameterCountMismatch { name, language, source_count, translation_count } => "warning: phrase '"@
                + name@ + "' in '"@ + language@ + "' has "@ + int_decimal(*translation_count as int)
                + " parameter(s) but the source has "@ + int_decimal(*source_count as int),
            LoadWarning::UnknownPhrase { name, language } => "warning: phrase '"@ + name@ + "' in '"@
                + language@ + "' does not exist in the source language"@,
        }
    }

    /// The message of this warning, as its display shows it.
    pub fn message(&self) -> (r: String)
        ensures
            r@ == self.message_spec(),
    {
        match self {
            LoadWarning::RedundantPassthroughBlock { name, language } => {
                let mut r = crate::text::to_string("warning: phrase '");
                crate::text::push_str(&mut r, name.as_str());
                crate::text::push_str(&mut r, "' in '");
                crate::text::push_str(&mut r, language.as_str());
                crate::text::push_str(
                    &mut r,
                    "' has redundant passthrough variant block; use simple :from template instead",
                );
                r
            },
            LoadWarning::RedundantFromSelector { name, language, variant_key, parameter } => {
                let mut r = crate::text::to_string("warning: phrase '");
                crate::text::push_str(&mut r, name.as_str());
                crate::text::push_str(&mut r, "' in '");
                crate::text::push_str(&mut r, language.as_str());
                crate::text::push_str(&mut r, "' has redundant selector ':");
                crate::text::push_str(&mut r, variant_key.as_str());
                crate::text::push_str(&mut r, "' on :from parameter '$");
                crate::text::push_str(&mut r, parameter.as_str());
                crate::text::push_str(&mut r, "'; bare '${$");
                crate::text::push_str(&mut r, parameter.as_str());
                crate::text::push_str(&mut r, "}' resolves to the same value");
                r
            },
            LoadWarning::LikelyMissingFrom { name, language, parameter } => {
                let mut r = crate::text::to_string("warning: phrase '");
                crate::text::push_str(&mut r, name.as_str());
                crate::text::push_str(&mut r, "' in '");
                crate::text::push_str(&mut r, language.as_str());
                crate::text::push_str(&mut r, "' uses parameter '$");
                crate::text::push_str(&mut r, parameter.as_str());
                crate::text::push_str(&mut r, "' without :from; tags and variants may be lost");
                r
            },
            LoadWarning::VerboseTransparentWrapper { name, language } => {
                let mut r = crate::text::to_string("warning: phrase '");
                crate::text::push_str(&mut r, name.as_str());
                crate::text::push_str(&mut r, "' in '");
                crate::text::push_str(&mut r, language.as_str());
                crate::text::push_str(&mut r, "' uses ':from($p) \"{$p}\"'; use body-less ':from($p);' instead");
                r
            },
            LoadWarning::ParameterCountMismatch { name, language, source_count, translation_count } => {
                let mut r = crate::text::to_string("warning: phrase '");
                crate::text::push_str(&mut r, name.as_str());
                crate::text::push_str(&mut r, "' in '");
                crate::text::push_str(&mut r, language.as_str());
                crate::text::push_str(&mut r, "' has ");
                crate::text::push_str(&mut r, crate::text::usize_to_decimal(*translation_count).as_str());
                crate::text::push_str(&mut r, " parameter(s) but the source has ");
                crate::text::push_str(&mut r, crate::text::usize_to_decimal(*source_count).as_str());
                r
            },
            LoadWarning::UnknownPhrase { name, language } => {
                let mut r = crate::text::to_string("warning: phrase '");
                crate::text::push_str(&mut r, name.as_str());
                crate::text::push_str(&mut r, "' in '");
                crate::text::push_str(&mut r, language.as_str());
                crate::text::push_str(&mut r, "' does not exist in the source language");
                r
            },
        }
    }
}

impl LoadError {
    /// The message of this error, as its display shows it.
    pub open spec fn message_spec(&self) -> Seq<char> {
        match self {
            LoadError::Parse { path, line, column, message } => path@ + ":"@ + int_decimal(*line as int) + ":"@
                + int_decimal(*column as int) + ": "@ + message@,
            LoadError::NoPathForReload { language } => "cannot reload '"@ + language@
                + "': was loaded from string, not file"@,
        }
    }

    /// The message of this error, as its display shows it.
    pub fn message(&self) -> (r: String)
        ensures
            r@ == self.message_spec(),
    {
        match self {
            LoadError::Parse { path, line, column, message } => {
                let mut r = crate::text::copy_string(path);
                crate::text::push_str(&mut r, ":");
                crate::text::push_str(&mut r, crate::text::usize_to_decimal(*line).as_str());
                crate::text::push_str(&mut r, ":");
                crate::text::push_str(&mut r, crate::text::usize_to_decimal(*column).as_str());
                crate::text::push_str(&mut r, ": ");
                crate::text::push_str(&mut r, message.as_str());
                r
            },
            LoadError::NoPathForReload { language } => {
                let mut r = crate::text::to_string("cannot reload '");
                crate::text::push_str(&mut r, language.as_str());
                crate::text::push_str(&mut r, "': was loaded from string, not file");
                r
            },
        }
    }
}

/// A warning produced during phrase evaluation.
#[derive(Debug, Clone)]
pub enum EvalWarning {
    /// Phrase called with a phrase argument but without `:from`.
    PhraseArgumentWithoutFrom { phrase: String, parameter: String },
    /// Bare parameter reference to a phrase with multi-dimensional variants
    /// outside a `:from` context.
    MissingSelectorOnMultiDimensional { parameter: String, available_keys: Vec<String> },
}

// ---------------------------------------------------------------------------
// Evaluation errors
// ---------------------------------------------------------------------------

/// An error that occurred during phrase evaluation.
#[derive(Debug, Clone)]
pub enum EvalError {
    /// Phrase not found by name.
    PhraseNotFound { name: String },
    /// Phrase not found by id.
    PhraseNotFoundById { id: u64 },
    /// Required variant key is missing from a phrase.
    MissingVariant { phrase: String, key: String, available: Vec<String>, suggestions: Vec<String> },
    /// Transform requires a tag that the phrase does not have.
    MissingTag { transform: String, expected: Vec<String>, phrase: String },
    /// Wrong number of arguments passed to a phrase call.
    ArgumentCount { phrase: String, expected: usize, got: usize },
    /// Cyclic reference detected during evaluation.
    CyclicReference { chain: Vec<String> },
    /// Maximum recursion depth exceeded.
    MaxDepthExceeded,
    /// Unknown transform name.
    UnknownTransform { name: String },
    /// Term cannot be called with arguments.
    ArgumentsToTerm { name: String },
    /// Phrase cannot use `:` without `()`.
    SelectorOnPhrase { name: String },
    /// No branch matched in a `:match` block and no default was found.
    MissingMatchDefault { keys: Vec<Vec<String>> },
    /// Parameter not found in scope.
    UnknownParameter { name: String },
}

/// The contents of an evaluation error.
pub enum EvalErrorModel {
    PhraseNotFound(Seq<char>),
    PhraseNotFoundById(u64),
    MissingVariant { phrase: Seq<char>, key: Seq<char>, available: Seq<Seq<char>>, suggestions: Seq<Seq<char>> },
    MissingTag { transform: Seq<char>, expected: Seq<Seq<char>>, phrase: Seq<char> },
    ArgumentCount { phrase: Seq<char>, expected: nat, got: nat },
    CyclicReference(Seq<Seq<char>>),
    MaxDepthExceeded,
    UnknownTransform(Seq<char>),
    ArgumentsToTerm(Seq<char>),
    SelectorOnPhrase(Seq<char>),
    MissingMatchDefault(Seq<Seq<Seq<char>>>),
    UnknownParameter(Seq<char>),
}

impl View for EvalError {
    type V = EvalErrorModel;

    open spec fn view(&self) -> EvalErrorModel {
        match self {
            EvalError::PhraseNotFound { name } => EvalErrorModel::PhraseNotFound(name@),
            EvalError::PhraseNotFoundById { id } => EvalErrorModel::PhraseNotFoundById(*id),
            EvalError::MissingVariant { phrase, key, available, suggestions } => EvalErrorModel::MissingVariant {
                phrase: phrase@,
                key: key@,
                available: strings_view(available@),
                suggestions: strings_view(suggestions@),
            },
            EvalError::MissingTag { transform, expected, phrase } => EvalErrorModel::MissingTag {
                transform: transform@,
                expected: strings_view(expected@),
                phrase: phrase@,
            },
            EvalError::ArgumentCount { phrase, expected, got } => EvalErrorModel::ArgumentCount {
                phrase: phrase@,
                expected: *expected as nat,
                got: *got as nat,
            },
            EvalError::CyclicReference { chain } => EvalErrorModel::CyclicReference(strings_view(chain@)),
            EvalError::MaxDepthExceeded => EvalErrorModel::MaxDepthExceeded,
            EvalError::UnknownTransform { name } => EvalErrorModel::UnknownTransform(name@),
            EvalError::ArgumentsToTerm { name } => EvalErrorModel::ArgumentsToTerm(name@),
            EvalError::SelectorOnPhrase { name } => EvalErrorModel::SelectorOnPhrase(name@),
            EvalError::MissingMatchDefault { keys } => EvalErrorModel::MissingMatchDefault(lists_view(keys@)),
            EvalError::UnknownParameter { name } => EvalErrorModel::UnknownParameter(name@),
        }
    }
}

impl EvalError {
    /// The message of this error, as its display shows it.
    pub open spec fn message_spec(&self) -> Seq<char> {
        match self {
            EvalError::PhraseNotFound { name } => "phrase not found: '"@ + name@ + "'"@,
            EvalError::PhraseNotFoundById { id } => "phrase not found for id: "@ + int_decimal(
                *id as int,
            ),
            EvalError::MissingVariant { phrase, key, available, suggestions } => "missing variant '"@
                + key@ + "' in phrase '"@ + phrase@ + "', available: "@ + join(
                strings_view(available@),
                ", "@,
            ) + suggestions_text(strings_view(suggestions@)),
            EvalError::MissingTag { transform, expected, phrase } => "transform '@"@ + transform@
                + "' requires tag "@ + debug_list(strings_view(expected@)) + " on phrase '"@
                + phrase@ + "'"@,
            EvalError::ArgumentCount { phrase, expected, got } => "phrase '"@ + phrase@
                + "' expects "@ + int_decimal(*expected as int) + " arguments, got "@
                + int_decimal(*got as int),
            EvalError::CyclicReference { chain } => "cyclic reference detected: "@ + join(
                strings_view(chain@),
                " -> "@,
            ),
            EvalError::MaxDepthExceeded => "maximum recursion depth exceeded"@,
            EvalError::UnknownTransform { name } => "unknown transform '@"@ + name@ + "'"@,
            EvalError::ArgumentsToTerm { name } => "'"@ + name@
                + "' is a term \u{2014} cannot use () call syntax; use {"@ + name@
                + ":variant} or {"@ + name@ + ":$param} to select a variant"@,
            EvalError::SelectorOnPhrase { name } => "'"@ + name@
                + "' is a phrase \u{2014} cannot use : without (); use {"@ + name@
                + "(...)} or {"@ + name@ + "(...):variant}"@,
            EvalError::MissingMatchDefault { keys } => "no matching branch in :match block for keys "@
                + debug_list2(lists_view(keys@)),
            EvalError::UnknownParameter { name } => "unknown parameter '$"@ + name@
                + "' \u{2014} not in scope"@,
        }
    }

    /// The message of this error, as its display shows it.
    pub fn message(&self) -> (r: String)
        ensures
            r@ == self.message_spec(),
    {
        match self {
            EvalError::PhraseNotFound { name } => {
                let mut r = crate::text::to_string("phrase not found: '");
                crate::text::push_str(&mut r, name.as_str());
                crate::text::push_str(&mut r, "'");
                r
            },
            EvalError::PhraseNotFoundById { id } => {
                let mut r = crate::text::to_string("phrase not found for id: ");
                let d = crate::text::u64_to_decimal(*id);
                crate::text::push_str(&mut r, d.as_str());
                r
            },
            EvalError::MissingVariant { phrase, key, available, suggestions } => {
                let mut r = crate::text::to_string("missing variant '");
                crate::text::push_str(&mut r, key.as_str());
                crate::text::push_str(&mut r, "' in phrase '");
                crate::text::push_str(&mut r, phrase.as_str());
                crate::text::push_str(&mut r, "', available: ");
                crate::text::push_str(&mut r, join_strings(available, ", ").as_str());
                crate::text::push_str(&mut r, format_suggestions(suggestions).as_str());
                r
            },
            EvalError::MissingTag { transform, expected, phrase } => {
                let mut r = crate::text::to_string("transform '@");
                crate::text::push_str(&mut r, transform.as_str());
                crate::text::push_str(&mut r, "' requires tag ");
                crate::text::push_str(&mut r, debug_list_exec(expected).as_str());
                crate::text::push_str(&mut r, " on phrase '");
                crate::text::push_str(&mut r, phrase.as_str());
                crate::text::push_str(&mut r, "'");
                r
            },
            EvalError::ArgumentCount { phrase, expected, got } => {
                let mut r = crate::text::to_string("phrase '");
                crate::text::push_str(&mut r, phrase.as_str());
                crate::text::push_str(&mut r, "' expects ");
                crate::text::push_str(&mut r, crate::text::usize_to_decimal(*expected).as_str());
                crate::text::push_str(&mut r, " arguments, got ");
                crate::text::push_str(&mut r, crate::text::usize_to_decimal(*got).as_str());
                r
            },
            EvalError::CyclicReference { chain } => {
                let mut r = crate::text::to_string("cyclic reference detected: ");
                crate::text::push_str(&mut r, join_strings(chain, " -> ").as_str());
                r
            },
            EvalError::MaxDepthExceeded => crate::text::to_string(
                "maximum recursion depth exceeded",
            ),
            EvalError::UnknownTransform { name } => {
                let mut r = crate::text::to_string("unknown transform '@");
                crate::text::push_str(&mut r, name.as_str());
                crate::text::push_str(&mut r, "'");
                r
            },
            EvalError::ArgumentsToTerm { name } => {
                let mut r = crate::text::to_string("'");
                crate::text::push_str(&mut r, name.as_str());
                crate::text::push_str(&mut r, "' is a term \u{2014} cannot use () call syntax; use {");
                crate::text::push_str(&mut r, name.as_str());
                crate::text::push_str(&mut r, ":variant} or {");
                crate::text::push_str(&mut r, name.as_str());
                crate::text::push_str(&mut r, ":$param} to select a variant");
                r
            },
            EvalError::SelectorOnPhrase { name } => {
                let mut r = crate::text::to_string("'");
                crate::text::push_str(&mut r, name.as_str());
                crate::text::push_str(&mut r, "' is a phrase \u{2014} cannot use : without (); use {");
                crate::text::push_str(&mut r, name.as_str());
                crate::text::push_str(&mut r, "(...)} or {");
                crate::text::push_str(&mut r, name.as_str());
                crate::text::push_str(&mut r, "(...):variant}");
                r
            },
            EvalError::MissingMatchDefault { keys } => {
                let mut r = crate::text::to_string("no matching branch in :match block for keys ");
                crate::text::push_str(&mut r, debug_list2_exec(keys).as_str());
                r
            },
            EvalError::UnknownParameter { name } => {
                let mut r = crate::text::to_string("unknown parameter '$");
                crate::text::push_str(&mut r, name.as_str());
                crate::text::push_str(&mut r, "' \u{2014} not in scope");
                r
            },
        }
    }
}

} // verus!
