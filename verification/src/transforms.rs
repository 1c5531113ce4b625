//! Transforms (`@cap`, `@a`, `@der`, `@count`, `@inflect`, ...): their
//! per-language tables and what each does to a value's text.
use vstd::prelude::*;
use crate::text::{int_decimal, parse_i64_spec, to_string, push_str, push_char, str_eq, chars_of};
use crate::types::{ValueModel, Value, value_text, value_has_tag, lookup, entries_view};
use crate::errors::{EvalError, EvalErrorModel};
use crate::ast::strings_view;
use crate::parser::validate::{split_dots, split_dot_parts};
use unicode_segmentation::UnicodeSegmentation;

verus! {

// ---------------------------------------------------------------------------
// Case mapping, graphemes and Hangul finals (outside crates)
// ---------------------------------------------------------------------------

/// The full uppercase mapping of `text` for the language `lang` (what
/// `icu_casemap` gives for the language identifier that `lang` parses to, or
/// for the root locale where it does not parse).
pub uninterp spec fn uppercase_of(text: Seq<char>, lang: Seq<char>) -> Seq<char>;

/// The full lowercase mapping of `text` for the language `lang`.
pub uninterp spec fn lowercase_of(text: Seq<char>, lang: Seq<char>) -> Seq<char>;

/// The first extended grapheme cluster of `text`.
pub uninterp spec fn first_grapheme_of(text: Seq<char>) -> Seq<char>;

/// `CaseMapper::uppercase_to_string` (icu_casemap) with the language
/// identifier parsed from `lang` (`LanguageIdentifier::UNKNOWN` where it does
/// not parse). Claimed: the result is the named uppercase mapping of the
/// arguments.
#[verifier::external_body]
fn uppercase(text: &str, lang: &str) -> (r: String)
    ensures
        r@ == uppercase_of(text@, lang@),
{
    let id: icu_locale_core::LanguageIdentifier = lang.parse().unwrap_or(
        icu_locale_core::LanguageIdentifier::UNKNOWN,
    );
    icu_casemap::CaseMapper::new().uppercase_to_string(text, &id).into_owned()
}

/// `CaseMapper::lowercase_to_string` (icu_casemap) with the language
/// identifier parsed from `lang`. Claimed: the result is the named lowercase
/// mapping of the arguments.
#[verifier::external_body]
fn lowercase(text: &str, lang: &str) -> (r: String)
    ensures
        r@ == lowercase_of(text@, lang@),
{
    let id: icu_locale_core::LanguageIdentifier = lang.parse().unwrap_or(
        icu_locale_core::LanguageIdentifier::UNKNOWN,
    );
    icu_casemap::CaseMapper::new().lowercase_to_string(text, &id).into_owned()
}

/// The first item of `UnicodeSegmentation::graphemes(text, true)`
/// (unicode-segmentation), or an empty string for an empty text. Claimed:
/// the result is the named first grapheme; graphemes split the text into
/// non-empty pieces, so for a non-empty text it is a non-empty prefix.
#[verifier::external_body]
fn first_grapheme(text: &str) -> (r: String)
    ensures
        r@ == first_grapheme_of(text@),
        text@.len() == 0 ==> r@.len() == 0,
        text@.len() > 0 ==> 0 < r@.len() <= text@.len() && r@ == text@.take(r@.len() as int),
{
    match text.graphemes(true).next() {
        Some(g) => g.to_string(),
        None => String::new(),
    }
}

/// Whether `c` is a precomposed Hangul syllable.
pub open spec fn is_hangul_syllable(c: char) -> bool {
    0xAC00 <= (c as u32) <= 0xD7A3
}

/// What `hangeul::ends_with_jongseong` gives: for a text whose last
/// character is a Hangul syllable, whether that syllable has a final
/// consonant; nothing (its error) otherwise.
pub open spec fn ends_with_final_consonant(text: Seq<char>) -> Option<bool> {
    if text.len() > 0 && is_hangul_syllable(text.last()) {
        Some(((text.last() as u32) - 0xAC00) % 28 != 0)
    } else {
        None
    }
}

/// `hangeul::ends_with_jongseong`, with its error as `None`. Claimed: the
/// result is as the crate's source computes it (`ends_with_final_consonant`).
#[verifier::external_body]
fn jongseong_ending(text: &str) -> (r: Option<bool>)
    ensures
        r == ends_with_final_consonant(text@),
{
    match hangeul::ends_with_jongseong(text) {
        Ok(b) => Some(b),
        Err(_) => None,
    }
}

// ---------------------------------------------------------------------------
// Transform kinds
// ---------------------------------------------------------------------------

/// The transforms, dispatched statically.
#[derive(Debug, Clone, Copy, PartialEq, Eq, Structural)]
pub enum TransformKind {
    Cap,
    Upper,
    Lower,
    EnglishA,
    EnglishThe,
    GermanDer,
    GermanEin,
    DutchDe,
    DutchEen,
    SpanishEl,
    SpanishUn,
    PortugueseO,
    PortugueseUm,
    PortugueseDe,
    PortugueseEm,
    FrenchLe,
    FrenchUn,
    FrenchDe,
    FrenchAu,
    FrenchLiaison,
    ItalianIl,
    ItalianUn,
    ItalianDi,
    ItalianA,
    GreekO,
    GreekEnas,
    RomanianDef,
    ArabicAl,
    PersianEzafe,
    ChineseCount,
    JapaneseCount,
    KoreanCount,
    VietnameseCount,
    ThaiCount,
    BengaliCount,
    IndonesianPlural,
    KoreanParticle,
    TurkishInflect,
    FinnishInflect,
    HungarianInflect,
}

// ---------------------------------------------------------------------------
// Shared pieces
// ---------------------------------------------------------------------------

/// The string a context value holds, if it is a string.
pub open spec fn ctx_string(c: Option<ValueModel>) -> Option<Seq<char>> {
    match c {
        Some(ValueModel::Str(s)) => Some(s),
        _ => None,
    }
}

pub open spec fn missing_tag(transform: Seq<char>, expected: Seq<Seq<char>>, text: Seq<char>) -> EvalErrorModel {
    EvalErrorModel::MissingTag { transform, expected, phrase: text }
}

/// `article text`, or `article` directly followed by `text` where the
/// article is elided (ends in an apostrophe).
pub open spec fn attach(article: Seq<char>, elided: bool, text: Seq<char>) -> Seq<char> {
    if elided {
        article + text
    } else {
        article + " "@ + text
    }
}

fn concat(a: &str, b: &str) -> (r: String)
    ensures
        r@ == a@ + b@,
{
    let mut r = to_string(a);
    push_str(&mut r, b);
    r
}

fn attach_exec(article: &str, elided: bool, text: &str) -> (r: String)
    ensures
        r@ == attach(article@, elided, text@),
{
    let mut r = to_string(article);
    if !elided {
        push_str(&mut r, " ");
    }
    push_str(&mut r, text);
    r
}

fn vec_of(a: &str, b: &str) -> (r: Vec<String>)
    ensures
        strings_view(r@) == seq![a@, b@],
{
    let mut v: Vec<String> = Vec::new();
    v.push(to_string(a));
    v.push(to_string(b));
    assert(strings_view(v@) =~= seq![a@, b@]);
    v
}

fn vec_of3(a: &str, b: &str, c: &str) -> (r: Vec<String>)
    ensures
        strings_view(r@) == seq![a@, b@, c@],
{
    let mut v: Vec<String> = Vec::new();
    v.push(to_string(a));
    v.push(to_string(b));
    v.push(to_string(c));
    assert(strings_view(v@) =~= seq![a@, b@, c@]);
    v
}

fn missing_tag_exec(transform: &str, expected: Vec<String>, text: String) -> (r: EvalError)
    ensures
        r@ == missing_tag(transform@, strings_view(expected@), text@),
{
    EvalError::MissingTag { transform: to_string(transform), expected, phrase: text }
}

fn context_string<'a>(c: Option<&'a Value>) -> (r: Option<&'a str>)
    ensures
        match r {
            Some(s) => ctx_string(
                match c {
                    Some(v) => Some(v@),
                    None => None,
                },
            ) == Some(s@),
            None => ctx_string(
                match c {
                    Some(v) => Some(v@),
                    None => None,
                },
            ) is None,
        },
{
    match c {
        Some(Value::String(s)) => Some(s.as_str()),
        _ => None,
    }
}

pub open spec fn opt_view(c: Option<&Value>) -> Option<ValueModel> {
    match c {
        Some(v) => Some(v@),
        None => None,
    }
}

// ---------------------------------------------------------------------------
// Grammatical categories read from tags and context
// ---------------------------------------------------------------------------

#[derive(Clone, Copy, PartialEq, Eq, Structural)]
pub enum Gender {
    Masculine,
    Feminine,
    Neuter,
}

#[derive(Clone, Copy, PartialEq, Eq, Structural)]
pub enum GrammaticalCase {
    Nominative,
    Accusative,
    Dative,
    Genitive,
}

#[derive(Clone, Copy, PartialEq, Eq, Structural)]
pub enum Plurality {
    One,
    Other,
}

#[derive(Clone, Copy, PartialEq, Eq, Structural)]
pub enum ItalianSound {
    Normal,
    Vowel,
    SImpura,
}

/// Gender from `:masc`, `:fem`, `:neut` (checked in that order).
pub open spec fn gender3(v: ValueModel) -> Option<Gender> {
    if value_has_tag(v, "masc"@) {
        Some(Gender::Masculine)
    } else if value_has_tag(v, "fem"@) {
        Some(Gender::Feminine)
    } else if value_has_tag(v, "neut"@) {
        Some(Gender::Neuter)
    } else {
        None
    }
}

/// Gender from `:masc`, `:fem` (the Romance languages).
pub open spec fn gender2(v: ValueModel) -> Option<Gender> {
    if value_has_tag(v, "masc"@) {
        Some(Gender::Masculine)
    } else if value_has_tag(v, "fem"@) {
        Some(Gender::Feminine)
    } else {
        None
    }
}

/// Case from a string context `acc`, `dat`, `gen`; nominative otherwise.
pub open spec fn case_of(c: Option<ValueModel>) -> GrammaticalCase {
    match ctx_string(c) {
        Some(s) => if s == "acc"@ {
            GrammaticalCase::Accusative
        } else if s == "dat"@ {
            GrammaticalCase::Dative
        } else if s == "gen"@ {
            GrammaticalCase::Genitive
        } else {
            GrammaticalCase::Nominative
        },
        None => GrammaticalCase::Nominative,
    }
}

/// Plurality from the context: the string `other`, or a number other than 1,
/// is plural; anything else singular.
pub open spec fn plurality_of(c: Option<ValueModel>) -> Plurality {
    match c {
        Some(ValueModel::Str(s)) => if s == "other"@ {
            Plurality::Other
        } else {
            Plurality::One
        },
        Some(ValueModel::Number(n)) => if n == 1 {
            Plurality::One
        } else {
            Plurality::Other
        },
        _ => Plurality::One,
    }
}

pub open spec fn italian_sound_of(v: ValueModel) -> ItalianSound {
    if value_has_tag(v, "vowel"@) {
        ItalianSound::Vowel
    } else if value_has_tag(v, "s_imp"@) {
        ItalianSound::SImpura
    } else {
        ItalianSound::Normal
    }
}

fn parse_gender3(v: &Value) -> (r: Option<Gender>)
    ensures
        r == gender3(v@),
{
    if v.has_tag("masc") {
        Some(Gender::Masculine)
    } else if v.has_tag("fem") {
        Some(Gender::Feminine)
    } else if v.has_tag("neut") {
        Some(Gender::Neuter)
    } else {
        None
    }
}

fn parse_gender2(v: &Value) -> (r: Option<Gender>)
    ensures
        r == gender2(v@),
{
    if v.has_tag("masc") {
        Some(Gender::Masculine)
    } else if v.has_tag("fem") {
        Some(Gender::Feminine)
    } else {
        None
    }
}

fn parse_case(c: Option<&Value>) -> (r: GrammaticalCase)
    ensures
        r == case_of(opt_view(c)),
{
    match context_string(c) {
        Some(s) => if str_eq(s, "acc") {
            GrammaticalCase::Accusative
        } else if str_eq(s, "dat") {
            GrammaticalCase::Dative
        } else if str_eq(s, "gen") {
            GrammaticalCase::Genitive
        } else {
            GrammaticalCase::Nominative
        },
        None => GrammaticalCase::Nominative,
    }
}

fn parse_plurality(c: Option<&Value>) -> (r: Plurality)
    ensures
        r == plurality_of(opt_view(c)),
{
    match c {
        Some(Value::String(s)) => if str_eq(s.as_str(), "other") {
            Plurality::Other
        } else {
            Plurality::One
        },
        Some(Value::Number(n)) => if *n == 1 {
            Plurality::One
        } else {
            Plurality::Other
        },
        _ => Plurality::One,
    }
}

fn parse_italian_sound(v: &Value) -> (r: ItalianSound)
    ensures
        r == italian_sound_of(v@),
{
    if v.has_tag("vowel") {
        ItalianSound::Vowel
    } else if v.has_tag("s_imp") {
        ItalianSound::SImpura
    } else {
        ItalianSound::Normal
    }
}

// ---------------------------------------------------------------------------
// Article tables
// ---------------------------------------------------------------------------

pub open spec fn german_definite(g: Gender, c: GrammaticalCase) -> Seq<char> {
    match (g, c) {
        (Gender::Masculine, GrammaticalCase::Nominative) => "der"@,
        (Gender::Masculine, GrammaticalCase::Accusative) => "den"@,
        (Gender::Masculine, GrammaticalCase::Dative) => "dem"@,
        (Gender::Masculine, GrammaticalCase::Genitive) => "des"@,
        (Gender::Feminine, GrammaticalCase::Nominative) => "die"@,
        (Gender::Feminine, GrammaticalCase::Accusative) => "die"@,
        (Gender::Feminine, GrammaticalCase::Dative) => "der"@,
        (Gender::Feminine, GrammaticalCase::Genitive) => "der"@,
        (Gender::Neuter, GrammaticalCase::Nominative) => "das"@,
        (Gender::Neuter, GrammaticalCase::Accusative) => "das"@,
        (Gender::Neuter, GrammaticalCase::Dative) => "dem"@,
        (Gender::Neuter, GrammaticalCase::Genitive) => "des"@,
    }
}

fn german_definite_exec(g: Gender, c: GrammaticalCase) -> (r: &'static str)
    ensures
        r@ == german_definite(g, c),
{
    match (g, c) {
        (Gender::Masculine, GrammaticalCase::Nominative) => "der",
        (Gender::Masculine, GrammaticalCase::Accusative) => "den",
        (Gender::Masculine, GrammaticalCase::Dative) => "dem",
        (Gender::Masculine, GrammaticalCase::Genitive) => "des",
        (Gender::Feminine, GrammaticalCase::Nominative) => "die",
        (Gender::Feminine, GrammaticalCase::Accusative) => "die",
        (Gender::Feminine, GrammaticalCase::Dative) => "der",
        (Gender::Feminine, GrammaticalCase::Genitive) => "der",
        (Gender::Neuter, GrammaticalCase::Nominative) => "das",
        (Gender::Neuter, GrammaticalCase::Accusative) => "das",
        (Gender::Neuter, GrammaticalCase::Dative) => "dem",
        (Gender::Neuter, GrammaticalCase::Genitive) => "des",
    }
}

pub open spec fn german_indefinite(g: Gender, c: GrammaticalCase) -> Seq<char> {
    match (g, c) {
        (Gender::Masculine, GrammaticalCase::Nominative) => "ein"@,
        (Gender::Masculine, GrammaticalCase::Accusative) => "einen"@,
        (Gender::Masculine, GrammaticalCase::Dative) => "einem"@,
        (Gender::Masculine, GrammaticalCase::Genitive) => "eines"@,
        (Gender::Feminine, GrammaticalCase::Nominative) => "eine"@,
        (Gender::Feminine, GrammaticalCase::Accusative) => "eine"@,
        (Gender::Feminine, GrammaticalCase::Dative) => "einer"@,
        (Gender::Feminine, GrammaticalCase::Genitive) => "einer"@,
        (Gender::Neuter, GrammaticalCase::Nominative) => "ein"@,
        (Gender::Neuter, GrammaticalCase::Accusative) => "ein"@,
        (Gender::Neuter, GrammaticalCase::Dative) => "einem"@,
        (Gender::Neuter, GrammaticalCase::Genitive) => "eines"@,
    }
}

fn german_indefinite_exec(g: Gender, c: GrammaticalCase) -> (r: &'static str)
    ensures
        r@ == german_indefinite(g, c),
{
    match (g, c) {
        (Gender::Masculine, GrammaticalCase::Nominative) => "ein",
        (Gender::Masculine, GrammaticalCase::Accusative) => "einen",
        (Gender::Masculine, GrammaticalCase::Dative) => "einem",
        (Gender::Masculine, GrammaticalCase::Genitive) => "eines",
        (Gender::Feminine, GrammaticalCase::Nominative) => "eine",
        (Gender::Feminine, GrammaticalCase::Accusative) => "eine",
        (Gender::Feminine, GrammaticalCase::Dative) => "einer",
        (Gender::Feminine, GrammaticalCase::Genitive) => "einer",
        (Gender::Neuter, GrammaticalCase::Nominative) => "ein",
        (Gender::Neuter, GrammaticalCase::Accusative) => "ein",
        (Gender::Neuter, GrammaticalCase::Dative) => "einem",
        (Gender::Neuter, GrammaticalCase::Genitive) => "eines",
    }
}

/// Romance articles and contractions by gender and plurality: Spanish
/// definite (`table` 0) and indefinite (1), Portuguese definite (2),
/// `de` (3) and `em` (4) contractions.
pub open spec fn romance_table(table: nat, g: Gender, p: Plurality) -> Seq<char> {
    let masc = g == Gender::Masculine;
    let one = p == Plurality::One;
    if table == 0 {
        if masc {
            if one {
                "el"@
            } else {
                "los"@
            }
        } else if one {
            "la"@
        } else {
            "las"@
        }
    } else if table == 1 {
        if masc {
            if one {
                "un"@
            } else {
                "unos"@
            }
        } else if one {
            "una"@
        } else {
            "unas"@
        }
    } else if table == 2 {
        if masc {
            if one {
                "o"@
            } else {
                "os"@
            }
        } else if one {
            "a"@
        } else {
            "as"@
        }
    } else if table == 3 {
        if masc {
            if one {
                "do"@
            } else {
                "dos"@
            }
        } else if one {
            "da"@
        } else {
            "das"@
        }
    } else {
        if masc {
            if one {
                "no"@
            } else {
                "nos"@
            }
        } else if one {
            "na"@
        } else {
            "nas"@
        }
    }
}

fn romance_table_exec(table: u8, g: Gender, p: Plurality) -> (r: &'static str)
    ensures
        r@ == romance_table(table as nat, g, p),
{
    let masc = g == Gender::Masculine;
    let one = p == Plurality::One;
    if table == 0 {
        if masc {
            if one {
                "el"
            } else {
                "los"
            }
        } else if one {
            "la"
        } else {
            "las"
        }
    } else if table == 1 {
        if masc {
            if one {
                "un"
            } else {
                "unos"
            }
        } else if one {
            "una"
        } else {
            "unas"
        }
    } else if table == 2 {
        if masc {
            if one {
                "o"
            } else {
                "os"
            }
        } else if one {
            "a"
        } else {
            "as"
        }
    } else if table == 3 {
        if masc {
            if one {
                "do"
            } else {
                "dos"
            }
        } else if one {
            "da"
        } else {
            "das"
        }
    } else {
        if masc {
            if one {
                "no"
            } else {
                "nos"
            }
        } else if one {
            "na"
        } else {
            "nas"
        }
    }
}

/// French definite article (`table` 0), `de` (1) and `à` (2) contractions;
/// before a vowel in the singular the article is elided.
pub open spec fn french_table(table: nat, g: Gender, vowel: bool, p: Plurality) -> Seq<char> {
    if p == Plurality::Other {
        if table == 0 {
            "les"@
        } else if table == 1 {
            "des"@
        } else {
            "aux"@
        }
    } else if vowel {
        if table == 0 {
            "l'"@
        } else if table == 1 {
            "de l'"@
        } else {
            "a l'"@
        }
    } else if g == Gender::Masculine {
        if table == 0 {
            "le"@
        } else if table == 1 {
            "du"@
        } else {
            "au"@
        }
    } else {
        if table == 0 {
            "la"@
        } else if table == 1 {
            "de la"@
        } else {
            "a la"@
        }
    }
}

fn french_table_exec(table: u8, g: Gender, vowel: bool, p: Plurality) -> (r: &'static str)
    ensures
        r@ == french_table(table as nat, g, vowel, p),
{
    if p == Plurality::Other {
        if table == 0 {
            "les"
        } else if table == 1 {
            "des"
        } else {
            "aux"
        }
    } else if vowel {
        if table == 0 {
            "l'"
        } else if table == 1 {
            "de l'"
        } else {
            "a l'"
        }
    } else if g == Gender::Masculine {
        if table == 0 {
            "le"
        } else if table == 1 {
            "du"
        } else {
            "au"
        }
    } else {
        if table == 0 {
            "la"
        } else if table == 1 {
            "de la"
        } else {
            "a la"
        }
    }
}

/// Italian definite article (`table` 0), `di` (1) and `a` (2) contractions,
/// by gender, sound and plurality.
pub open spec fn italian_table(table: nat, g: Gender, s: ItalianSound, p: Plurality) -> Seq<char> {
    let t0 = table == 0;
    let t1 = table == 1;
    if g == Gender::Masculine {
        if p == Plurality::One {
            match s {
                ItalianSound::Normal => if t0 {
                    "il"@
                } else if t1 {
                    "del"@
                } else {
                    "al"@
                },
                ItalianSound::Vowel => if t0 {
                    "l'"@
                } else if t1 {
                    "dell'"@
                } else {
                    "all'"@
                },
                ItalianSound::SImpura => if t0 {
                    "lo"@
                } else if t1 {
                    "dello"@
                } else {
                    "allo"@
                },
            }
        } else {
            match s {
                ItalianSound::Normal => if t0 {
                    "i"@
                } else if t1 {
                    "dei"@
                } else {
                    "ai"@
                },
                _ => if t0 {
                    "gli"@
                } else if t1 {
                    "degli"@
                } else {
                    "agli"@
                },
            }
        }
    } else if p == Plurality::One {
        if s == ItalianSound::Vowel {
            if t0 {
                "l'"@
            } else if t1 {
                "dell'"@
            } else {
                "all'"@
            }
        } else if t0 {
            "la"@
        } else if t1 {
            "della"@
        } else {
            "alla"@
        }
    } else if t0 {
        "le"@
    } else if t1 {
        "delle"@
    } else {
        "alle"@
    }
}

fn italian_table_exec(table: u8, g: Gender, s: ItalianSound, p: Plurality) -> (r: &'static str)
    ensures
        r@ == italian_table(table as nat, g, s, p),
{
    let t0 = table == 0;
    let t1 = table == 1;
    if g == Gender::Masculine {
        if p == Plurality::One {
            match s {
                ItalianSound::Normal => if t0 {
                    "il"
                } else if t1 {
                    "del"
                } else {
                    "al"
                },
                ItalianSound::Vowel => if t0 {
                    "l'"
                } else if t1 {
                    "dell'"
                } else {
                    "all'"
                },
                ItalianSound::SImpura => if t0 {
                    "lo"
                } else if t1 {
                    "dello"
                } else {
                    "allo"
                },
            }
        } else {
            match s {
                ItalianSound::Normal => if t0 {
                    "i"
                } else if t1 {
                    "dei"
                } else {
                    "ai"
                },
                _ => if t0 {
                    "gli"
                } else if t1 {
                    "degli"
                } else {
                    "agli"
                },
            }
        }
    } else if p == Plurality::One {
        if s == ItalianSound::Vowel {
            if t0 {
                "l'"
            } else if t1 {
                "dell'"
            } else {
                "all'"
            }
        } else if t0 {
            "la"
        } else if t1 {
            "della"
        } else {
            "alla"
        }
    } else if t0 {
        "le"
    } else if t1 {
        "delle"
    } else {
        "alle"
    }
}

pub open spec fn italian_indefinite(g: Gender, s: ItalianSound) -> Seq<char> {
    if g == Gender::Masculine {
        if s == ItalianSound::SImpura {
            "uno"@
        } else {
            "un"@
        }
    } else if s == ItalianSound::Vowel {
        "un'"@
    } else {
        "una"@
    }
}

fn italian_indefinite_exec(g: Gender, s: ItalianSound) -> (r: &'static str)
    ensures
        r@ == italian_indefinite(g, s),
{
    if g == Gender::Masculine {
        if s == ItalianSound::SImpura {
            "uno"
        } else {
            "un"
        }
    } else if s == ItalianSound::Vowel {
        "un'"
    } else {
        "una"
    }
}

pub open spec fn greek_definite(g: Gender, c: GrammaticalCase, p: Plurality) -> Seq<char> {
    if p == Plurality::One {
        match (g, c) {
            (Gender::Masculine, GrammaticalCase::Nominative) => "ο"@,
            (Gender::Masculine, GrammaticalCase::Accusative) => "τον"@,
            (Gender::Masculine, GrammaticalCase::Genitive) => "του"@,
            (Gender::Masculine, GrammaticalCase::Dative) => "τω"@,
            (Gender::Feminine, GrammaticalCase::Nominative) => "η"@,
            (Gender::Feminine, GrammaticalCase::Accusative) => "την"@,
            (Gender::Feminine, GrammaticalCase::Genitive) => "της"@,
            (Gender::Feminine, GrammaticalCase::Dative) => "τη"@,
            (Gender::Neuter, GrammaticalCase::Nominative) => "το"@,
            (Gender::Neuter, GrammaticalCase::Accusative) => "το"@,
            (Gender::Neuter, GrammaticalCase::Genitive) => "του"@,
            (Gender::Neuter, GrammaticalCase::Dative) => "τω"@,
        }
    } else {
        match (g, c) {
            (Gender::Masculine, GrammaticalCase::Nominative) => "οι"@,
            (Gender::Masculine, GrammaticalCase::Accusative) => "τους"@,
            (Gender::Masculine, GrammaticalCase::Genitive) => "των"@,
            (Gender::Masculine, GrammaticalCase::Dative) => "τοις"@,
            (Gender::Feminine, GrammaticalCase::Nominative) => "οι"@,
            (Gender::Feminine, GrammaticalCase::Accusative) => "τις"@,
            (Gender::Feminine, GrammaticalCase::Genitive) => "των"@,
            (Gender::Feminine, GrammaticalCase::Dative) => "ταις"@,
            (Gender::Neuter, GrammaticalCase::Nominative) => "τα"@,
            (Gender::Neuter, GrammaticalCase::Accusative) => "τα"@,
            (Gender::Neuter, GrammaticalCase::Genitive) => "των"@,
            (Gender::Neuter, GrammaticalCase::Dative) => "τοις"@,
        }
    }
}

fn greek_definite_exec(g: Gender, c: GrammaticalCase, p: Plurality) -> (r: &'static str)
    ensures
        r@ == greek_definite(g, c, p),
{
    if p == Plurality::One {
        match (g, c) {
            (Gender::Masculine, GrammaticalCase::Nominative) => "ο",
            (Gender::Masculine, GrammaticalCase::Accusative) => "τον",
            (Gender::Masculine, GrammaticalCase::Genitive) => "του",
            (Gender::Masculine, GrammaticalCase::Dative) => "τω",
            (Gender::Feminine, GrammaticalCase::Nominative) => "η",
            (Gender::Feminine, GrammaticalCase::Accusative) => "την",
            (Gender::Feminine, GrammaticalCase::Genitive) => "της",
            (Gender::Feminine, GrammaticalCase::Dative) => "τη",
            (Gender::Neuter, GrammaticalCase::Nominative) => "το",
            (Gender::Neuter, GrammaticalCase::Accusative) => "το",
            (Gender::Neuter, GrammaticalCase::Genitive) => "του",
            (Gender::Neuter, GrammaticalCase::Dative) => "τω",
        }
    } else {
        match (g, c) {
            (Gender::Masculine, GrammaticalCase::Nominative) => "οι",
            (Gender::Masculine, GrammaticalCase::Accusative) => "τους",
            (Gender::Masculine, GrammaticalCase::Genitive) => "των",
            (Gender::Masculine, GrammaticalCase::Dative) => "τοις",
            (Gender::Feminine, GrammaticalCase::Nominative) => "οι",
            (Gender::Feminine, GrammaticalCase::Accusative) => "τις",
            (Gender::Feminine, GrammaticalCase::Genitive) => "των",
            (Gender::Feminine, GrammaticalCase::Dative) => "ταις",
            (Gender::Neuter, GrammaticalCase::Nominative) => "τα",
            (Gender::Neuter, GrammaticalCase::Accusative) => "τα",
            (Gender::Neuter, GrammaticalCase::Genitive) => "των",
            (Gender::Neuter, GrammaticalCase::Dative) => "τοις",
        }
    }
}

pub open spec fn greek_indefinite(g: Gender, c: GrammaticalCase) -> Seq<char> {
    match (g, c) {
        (Gender::Masculine, GrammaticalCase::Nominative) => "ένας"@,
        (Gender::Masculine, GrammaticalCase::Accusative) => "έναν"@,
        (Gender::Masculine, GrammaticalCase::Genitive) => "ενός"@,
        (Gender::Masculine, GrammaticalCase::Dative) => "ενί"@,
        (Gender::Feminine, GrammaticalCase::Nominative) => "μία"@,
        (Gender::Feminine, GrammaticalCase::Accusative) => "μία"@,
        (Gender::Feminine, GrammaticalCase::Genitive) => "μιας"@,
        (Gender::Feminine, GrammaticalCase::Dative) => "μια"@,
        (Gender::Neuter, GrammaticalCase::Nominative) => "ένα"@,
        (Gender::Neuter, GrammaticalCase::Accusative) => "ένα"@,
        (Gender::Neuter, GrammaticalCase::Genitive) => "ενός"@,
        (Gender::Neuter, GrammaticalCase::Dative) => "ενί"@,
    }
}

fn greek_indefinite_exec(g: Gender, c: GrammaticalCase) -> (r: &'static str)
    ensures
        r@ == greek_indefinite(g, c),
{
    match (g, c) {
        (Gender::Masculine, GrammaticalCase::Nominative) => "ένας",
        (Gender::Masculine, GrammaticalCase::Accusative) => "έναν",
        (Gender::Masculine, GrammaticalCase::Genitive) => "ενός",
        (Gender::Masculine, GrammaticalCase::Dative) => "ενί",
        (Gender::Feminine, GrammaticalCase::Nominative) => "μία",
        (Gender::Feminine, GrammaticalCase::Accusative) => "μία",
        (Gender::Feminine, GrammaticalCase::Genitive) => "μιας",
        (Gender::Feminine, GrammaticalCase::Dative) => "μια",
        (Gender::Neuter, GrammaticalCase::Nominative) => "ένα",
        (Gender::Neuter, GrammaticalCase::Accusative) => "ένα",
        (Gender::Neuter, GrammaticalCase::Genitive) => "ενός",
        (Gender::Neuter, GrammaticalCase::Dative) => "ενί",
    }
}

/// Romanian postposed definite article; the neuter takes the masculine
/// suffix in the singular and the feminine one in the plural.
pub open spec fn romanian_suffix(g: Gender, p: Plurality) -> Seq<char> {
    match (g, p) {
        (Gender::Masculine, Plurality::One) => "ul"@,
        (Gender::Masculine, Plurality::Other) => "ii"@,
        (Gender::Feminine, Plurality::One) => "a"@,
        (Gender::Feminine, Plurality::Other) => "le"@,
        (Gender::Neuter, Plurality::One) => "ul"@,
        (Gender::Neuter, Plurality::Other) => "le"@,
    }
}

fn romanian_suffix_exec(g: Gender, p: Plurality) -> (r: &'static str)
    ensures
        r@ == romanian_suffix(g, p),
{
    match (g, p) {
        (Gender::Masculine, Plurality::One) => "ul",
        (Gender::Masculine, Plurality::Other) => "ii",
        (Gender::Feminine, Plurality::One) => "a",
        (Gender::Feminine, Plurality::Other) => "le",
        (Gender::Neuter, Plurality::One) => "ul",
        (Gender::Neuter, Plurality::Other) => "le",
    }
}


// ---------------------------------------------------------------------------
// Outcomes
// ---------------------------------------------------------------------------

/// A transform's outcome by its model.
pub open spec fn outcome(r: Result<String, EvalError>) -> Result<Seq<char>, EvalErrorModel> {
    match r {
        Ok(s) => Ok(s@),
        Err(e) => Err(e@),
    }
}

// ---------------------------------------------------------------------------
// Case transforms
// ---------------------------------------------------------------------------

/// `@cap`: the first grapheme uppercased, the rest unchanged.
pub open spec fn cap_spec(text: Seq<char>, lang: Seq<char>) -> Seq<char> {
    if text.len() == 0 {
        seq![]
    } else {
        let g = first_grapheme_of(text);
        uppercase_of(g, lang) + text.skip(g.len() as int)
    }
}

fn cap_exec(text: &str, lang: &str) -> (r: String)
    ensures
        r@ == cap_spec(text@, lang@),
{
    let cs = chars_of(text);
    if cs.len() == 0 {
        return String::new();
    }
    let g = first_grapheme(text);
    let gl = chars_of(g.as_str()).len();
    let mut r = uppercase(g.as_str(), lang);
    let rest = crate::text::slice_range(cs.as_slice(), gl, cs.len());
    let rs = crate::text::string_of(rest.as_slice());
    push_str(&mut r, rs.as_str());
    assert(rest@ =~= text@.skip(g@.len() as int));
    r
}

// ---------------------------------------------------------------------------
// Article transforms
// ---------------------------------------------------------------------------

pub open spec fn english_a_spec(v: ValueModel) -> Result<Seq<char>, EvalErrorModel> {
    let text = value_text(v);
    if value_has_tag(v, "a"@) {
        Ok("a "@ + text)
    } else if value_has_tag(v, "an"@) {
        Ok("an "@ + text)
    } else {
        Err(missing_tag("a"@, seq!["a"@, "an"@], text))
    }
}

pub open spec fn dutch_de_spec(v: ValueModel) -> Result<Seq<char>, EvalErrorModel> {
    let text = value_text(v);
    if value_has_tag(v, "de"@) {
        Ok("de "@ + text)
    } else if value_has_tag(v, "het"@) {
        Ok("het "@ + text)
    } else {
        Err(missing_tag("de"@, seq!["de"@, "het"@], text))
    }
}

/// German `@der` (`definite`) and `@ein`.
pub open spec fn german_spec(definite: bool, v: ValueModel, c: Option<ValueModel>) -> Result<Seq<char>, EvalErrorModel> {
    let text = value_text(v);
    match gender3(v) {
        Some(g) => Ok(
            (if definite {
                german_definite(g, case_of(c))
            } else {
                german_indefinite(g, case_of(c))
            }) + " "@ + text,
        ),
        None => Err(
            missing_tag(
                if definite {
                    "der"@
                } else {
                    "ein"@
                },
                seq!["masc"@, "fem"@, "neut"@],
                text,
            ),
        ),
    }
}

/// Spanish and Portuguese articles and contractions that take gender and
/// plurality (`romance_table`), under the transform's name.
pub open spec fn romance_spec(table: nat, name: Seq<char>, v: ValueModel, c: Option<ValueModel>) -> Result<Seq<char>, EvalErrorModel> {
    let text = value_text(v);
    match gender2(v) {
        Some(g) => Ok(romance_table(table, g, plurality_of(c)) + " "@ + text),
        None => Err(missing_tag(name, seq!["masc"@, "fem"@], text)),
    }
}

/// Portuguese `@um` and French `@un`: `um`/`uma` or `un`/`une` by gender.
pub open spec fn gendered_indefinite_spec(portuguese: bool, v: ValueModel) -> Result<Seq<char>, EvalErrorModel> {
    let text = value_text(v);
    match gender2(v) {
        Some(g) => Ok(
            (if portuguese {
                if g == Gender::Masculine {
                    "um"@
                } else {
                    "uma"@
                }
            } else if g == Gender::Masculine {
                "un"@
            } else {
                "une"@
            }) + " "@ + text,
        ),
        None => Err(
            missing_tag(
                if portuguese {
                    "um"@
                } else {
                    "un"@
                },
                seq!["masc"@, "fem"@],
                text,
            ),
        ),
    }
}

/// French `@le` (table 0), `@de` (1), `@au` (2).
pub open spec fn french_spec(table: nat, name: Seq<char>, v: ValueModel, c: Option<ValueModel>) -> Result<Seq<char>, EvalErrorModel> {
    let text = value_text(v);
    let vowel = value_has_tag(v, "vowel"@);
    let p = plurality_of(c);
    match gender2(v) {
        Some(g) => Ok(attach(french_table(table, g, vowel, p), vowel && p == Plurality::One, text)),
        None => Err(missing_tag(name, seq!["masc"@, "fem"@], text)),
    }
}

/// French `@liaison`: the variant `vowel` or `standard` of the value by
/// whether the context has the tag `vowel`; the text where there is none.
pub open spec fn french_liaison_spec(v: ValueModel, c: Option<ValueModel>) -> Seq<char> {
    let vowel = match c {
        Some(cv) => value_has_tag(cv, "vowel"@),
        None => false,
    };
    let key = if vowel {
        "vowel"@
    } else {
        "standard"@
    };
    match v {
        ValueModel::Phrase(p) => match lookup(p.variants, key) {
            Some(t) => t,
            None => value_text(v),
        },
        _ => value_text(v),
    }
}

/// Italian `@il` (table 0), `@di` (1), `@a` (2).
pub open spec fn italian_spec(table: nat, name: Seq<char>, v: ValueModel, c: Option<ValueModel>) -> Result<Seq<char>, EvalErrorModel> {
    let text = value_text(v);
    let s = italian_sound_of(v);
    let p = plurality_of(c);
    match gender2(v) {
        Some(g) => Ok(
            attach(
                italian_table(table, g, s, p),
                s == ItalianSound::Vowel && p == Plurality::One,
                text,
            ),
        ),
        None => Err(missing_tag(name, seq!["masc"@, "fem"@], text)),
    }
}

pub open spec fn italian_un_spec(v: ValueModel) -> Result<Seq<char>, EvalErrorModel> {
    let text = value_text(v);
    let s = italian_sound_of(v);
    match gender2(v) {
        Some(g) => Ok(
            attach(
                italian_indefinite(g, s),
                g == Gender::Feminine && s == ItalianSound::Vowel,
                text,
            ),
        ),
        None => Err(missing_tag("un"@, seq!["masc"@, "fem"@], text)),
    }
}

/// Greek `@o` (`definite`) and `@enas`.
pub open spec fn greek_spec(definite: bool, v: ValueModel, c: Option<ValueModel>) -> Result<Seq<char>, EvalErrorModel> {
    let text = value_text(v);
    match gender3(v) {
        Some(g) => Ok(
            (if definite {
                greek_definite(g, case_of(c), plurality_of(c))
            } else {
                greek_indefinite(g, case_of(c))
            }) + " "@ + text,
        ),
        None => Err(
            missing_tag(
                if definite {
                    "o"@
                } else {
                    "enas"@
                },
                seq!["masc"@, "fem"@, "neut"@],
                text,
            ),
        ),
    }
}

pub open spec fn romanian_spec(v: ValueModel, c: Option<ValueModel>) -> Result<Seq<char>, EvalErrorModel> {
    let text = value_text(v);
    match gender3(v) {
        Some(g) => Ok(text + romanian_suffix(g, plurality_of(c))),
        None => Err(missing_tag("def"@, seq!["masc"@, "fem"@, "neut"@], text)),
    }
}

/// Arabic `@al`: with `:sun` the first letter is doubled with a shadda, with
/// `:moon` the article is prefixed as it is.
pub open spec fn arabic_spec(v: ValueModel) -> Result<Seq<char>, EvalErrorModel> {
    let text = value_text(v);
    if value_has_tag(v, "sun"@) {
        if text.len() > 0 {
            Ok("ال"@ + seq![text[0], '\u{0651}'] + text.skip(1))
        } else {
            Ok("ال"@ + text)
        }
    } else if value_has_tag(v, "moon"@) {
        Ok("ال"@ + text)
    } else {
        Err(missing_tag("al"@, seq!["sun"@, "moon"@], text))
    }
}

/// Persian `@ezafe`: `-ye` (with a zero-width non-joiner) after a vowel,
/// else a kasra.
pub open spec fn persian_spec(v: ValueModel) -> Seq<char> {
    let text = value_text(v);
    if value_has_tag(v, "vowel"@) {
        text + seq!['\u{200C}', '\u{06CC}']
    } else {
        text + seq!['\u{0650}']
    }
}

fn english_a_exec(v: &Value) -> (r: Result<String, EvalError>)
    ensures
        outcome(r) == english_a_spec(v@),
{
    let text = v.display();
    if v.has_tag("a") {
        Ok(concat("a ", text.as_str()))
    } else if v.has_tag("an") {
        Ok(concat("an ", text.as_str()))
    } else {
        Err(missing_tag_exec("a", vec_of("a", "an"), text))
    }
}

fn dutch_de_exec(v: &Value) -> (r: Result<String, EvalError>)
    ensures
        outcome(r) == dutch_de_spec(v@),
{
    let text = v.display();
    if v.has_tag("de") {
        Ok(concat("de ", text.as_str()))
    } else if v.has_tag("het") {
        Ok(concat("het ", text.as_str()))
    } else {
        Err(missing_tag_exec("de", vec_of("de", "het"), text))
    }
}

fn german_exec(definite: bool, v: &Value, c: Option<&Value>) -> (r: Result<String, EvalError>)
    ensures
        outcome(r) == german_spec(definite, v@, opt_view(c)),
{
    let text = v.display();
    match parse_gender3(v) {
        Some(g) => {
            let case = parse_case(c);
            let a = if definite {
                german_definite_exec(g, case)
            } else {
                german_indefinite_exec(g, case)
            };
            Ok(attach_exec(a, false, text.as_str()))
        },
        None => Err(
            missing_tag_exec(
                if definite {
                    "der"
                } else {
                    "ein"
                },
                vec_of3("masc", "fem", "neut"),
                text,
            ),
        ),
    }
}

fn romance_exec(table: u8, name: &str, v: &Value, c: Option<&Value>) -> (r: Result<String, EvalError>)
    ensures
        outcome(r) == romance_spec(table as nat, name@, v@, opt_view(c)),
{
    let text = v.display();
    match parse_gender2(v) {
        Some(g) => {
            let a = romance_table_exec(table, g, parse_plurality(c));
            Ok(attach_exec(a, false, text.as_str()))
        },
        None => Err(missing_tag_exec(name, vec_of("masc", "fem"), text)),
    }
}

fn gendered_indefinite_exec(portuguese: bool, v: &Value) -> (r: Result<String, EvalError>)
    ensures
        outcome(r) == gendered_indefinite_spec(portuguese, v@),
{
    let text = v.display();
    match parse_gender2(v) {
        Some(g) => {
            let a = if portuguese {
                if g == Gender::Masculine {
                    "um"
                } else {
                    "uma"
                }
            } else if g == Gender::Masculine {
                "un"
            } else {
                "une"
            };
            Ok(attach_exec(a, false, text.as_str()))
        },
        None => Err(
            missing_tag_exec(
                if portuguese {
                    "um"
                } else {
                    "un"
                },
                vec_of("masc", "fem"),
                text,
            ),
        ),
    }
}

fn french_exec(table: u8, name: &str, v: &Value, c: Option<&Value>) -> (r: Result<String, EvalError>)
    ensures
        outcome(r) == french_spec(table as nat, name@, v@, opt_view(c)),
{
    let text = v.display();
    let vowel = v.has_tag("vowel");
    let p = parse_plurality(c);
    match parse_gender2(v) {
        Some(g) => {
            let a = french_table_exec(table, g, vowel, p);
            Ok(attach_exec(a, vowel && p == Plurality::One, text.as_str()))
        },
        None => Err(missing_tag_exec(name, vec_of("masc", "fem"), text)),
    }
}

fn french_liaison_exec(v: &Value, c: Option<&Value>) -> (r: String)
    ensures
        r@ == french_liaison_spec(v@, opt_view(c)),
{
    let vowel = match c {
        Some(cv) => cv.has_tag("vowel"),
        None => false,
    };
    let key = if vowel {
        chars_of("vowel")
    } else {
        chars_of("standard")
    };
    match v {
        Value::Phrase(p) => match crate::types::find_variant(&p.variants, key.as_slice()) {
            Some(t) => t.clone(),
            None => v.display(),
        },
        _ => v.display(),
    }
}

fn italian_exec(table: u8, name: &str, v: &Value, c: Option<&Value>) -> (r: Result<String, EvalError>)
    ensures
        outcome(r) == italian_spec(table as nat, name@, v@, opt_view(c)),
{
    let text = v.display();
    let s = parse_italian_sound(v);
    let p = parse_plurality(c);
    match parse_gender2(v) {
        Some(g) => {
            let a = italian_table_exec(table, g, s, p);
            Ok(attach_exec(a, s == ItalianSound::Vowel && p == Plurality::One, text.as_str()))
        },
        None => Err(missing_tag_exec(name, vec_of("masc", "fem"), text)),
    }
}

fn italian_un_exec(v: &Value) -> (r: Result<String, EvalError>)
    ensures
        outcome(r) == italian_un_spec(v@),
{
    let text = v.display();
    let s = parse_italian_sound(v);
    match parse_gender2(v) {
        Some(g) => {
            let a = italian_indefinite_exec(g, s);
            Ok(attach_exec(a, g == Gender::Feminine && s == ItalianSound::Vowel, text.as_str()))
        },
        None => Err(missing_tag_exec("un", vec_of("masc", "fem"), text)),
    }
}

fn greek_exec(definite: bool, v: &Value, c: Option<&Value>) -> (r: Result<String, EvalError>)
    ensures
        outcome(r) == greek_spec(definite, v@, opt_view(c)),
{
    let text = v.display();
    match parse_gender3(v) {
        Some(g) => {
            let case = parse_case(c);
            let a = if definite {
                greek_definite_exec(g, case, parse_plurality(c))
            } else {
                greek_indefinite_exec(g, case)
            };
            Ok(attach_exec(a, false, text.as_str()))
        },
        None => Err(
            missing_tag_exec(
                if definite {
                    "o"
                } else {
                    "enas"
                },
                vec_of3("masc", "fem", "neut"),
                text,
            ),
        ),
    }
}

fn romanian_exec(v: &Value, c: Option<&Value>) -> (r: Result<String, EvalError>)
    ensures
        outcome(r) == romanian_spec(v@, opt_view(c)),
{
    let text = v.display();
    match parse_gender3(v) {
        Some(g) => Ok(concat(text.as_str(), romanian_suffix_exec(g, parse_plurality(c)))),
        None => Err(missing_tag_exec("def", vec_of3("masc", "fem", "neut"), text)),
    }
}

fn arabic_exec(v: &Value) -> (r: Result<String, EvalError>)
    ensures
        outcome(r) == arabic_spec(v@),
{
    let text = v.display();
    if v.has_tag("sun") {
        let cs = chars_of(text.as_str());
        if cs.len() > 0 {
            let mut r = to_string("ال");
            push_char(&mut r, cs[0]);
            push_char(&mut r, '\u{0651}');
            let rest = crate::text::slice_range(cs.as_slice(), 1, cs.len());
            push_str(&mut r, crate::text::string_of(rest.as_slice()).as_str());
            assert(rest@ =~= text@.skip(1));
            assert(r@ =~= "ال"@ + seq![text@[0], '\u{0651}'] + text@.skip(1));
            Ok(r)
        } else {
            Ok(concat("ال", text.as_str()))
        }
    } else if v.has_tag("moon") {
        Ok(concat("ال", text.as_str()))
    } else {
        Err(missing_tag_exec("al", vec_of("sun", "moon"), text))
    }
}

fn persian_exec(v: &Value) -> (r: String)
    ensures
        r@ == persian_spec(v@),
{
    let mut r = v.display();
    if v.has_tag("vowel") {
        push_char(&mut r, '\u{200C}');
        push_char(&mut r, '\u{06CC}');
    } else {
        push_char(&mut r, '\u{0650}');
    }
    r
}


// ---------------------------------------------------------------------------
// Counting with classifiers
// ---------------------------------------------------------------------------

/// Tags and classifiers of the counting languages: Chinese (0), Japanese (1),
/// Korean (2), Vietnamese (3), Thai (4), Bengali (5).
pub open spec fn classifier_tags(k: nat) -> Seq<Seq<char>> {
    if k == 0 {
        seq!["zhang"@, "ge"@, "ming"@, "wei"@, "tiao"@, "ben"@, "zhi"@]
    } else if k == 1 {
        seq!["mai"@, "nin"@, "hiki"@, "hon"@, "ko"@, "satsu"@]
    } else if k == 2 {
        seq!["jang"@, "myeong"@, "mari"@, "gae"@, "gwon"@]
    } else if k == 3 {
        seq!["cai"@, "con"@, "nguoi"@, "chiec"@, "to"@]
    } else if k == 4 {
        seq!["bai"@, "tua"@, "khon"@, "an"@]
    } else {
        seq!["ta"@, "ti"@, "khana"@, "jon"@]
    }
}

pub open spec fn classifier_words(k: nat) -> Seq<Seq<char>> {
    if k == 0 {
        seq!["张"@, "个"@, "名"@, "位"@, "条"@, "本"@, "只"@]
    } else if k == 1 {
        seq!["枚"@, "人"@, "匹"@, "本"@, "個"@, "冊"@]
    } else if k == 2 {
        seq!["장"@, "명"@, "마리"@, "개"@, "권"@]
    } else if k == 3 {
        seq!["cai"@, "con"@, "nguoi"@, "chiec"@, "to"@]
    } else if k == 4 {
        seq!["ใบ"@, "ตัว"@, "คน"@, "อัน"@]
    } else {
        seq!["টা"@, "টি"@, "খানা"@, "জন"@]
    }
}

/// Index of the first tag of `tags` that the value has.
pub open spec fn first_tag_index(v: ValueModel, tags: Seq<Seq<char>>, i: int) -> Option<int>
    decreases tags.len() - i,
{
    if i < 0 || i >= tags.len() {
        None
    } else if value_has_tag(v, tags[i]) {
        Some(i)
    } else {
        first_tag_index(v, tags, i + 1)
    }
}

/// The count a context gives: a number, a string that parses as one, else 1.
pub open spec fn count_of(c: Option<ValueModel>) -> i64 {
    match c {
        Some(ValueModel::Number(n)) => n,
        Some(ValueModel::Str(s)) => match parse_i64_spec(s) {
            Some(n) => n,
            None => 1,
        },
        _ => 1,
    }
}

/// `@count`: the count, the classifier and the text (Vietnamese with spaces
/// between them, Bengali with a space before the text).
pub open spec fn count_spec(k: nat, v: ValueModel, c: Option<ValueModel>) -> Result<Seq<char>, EvalErrorModel> {
    let text = value_text(v);
    let n = int_decimal(count_of(c) as int);
    match first_tag_index(v, classifier_tags(k), 0) {
        Some(i) => {
            let w = classifier_words(k)[i];
            Ok(
                if k == 3 {
                    n + " "@ + w + " "@ + text
                } else if k == 5 {
                    n + w + " "@ + text
                } else {
                    n + w + text
                },
            )
        },
        None => Err(missing_tag("count"@, classifier_tags(k), text)),
    }
}

fn push_all(v: &mut Vec<String>, items: &[&str])
    ensures
        strings_view(final(v)@) == strings_view(old(v)@) + items@.map_values(|x: &str| x@),
{
    let mut i: usize = 0;
    while i < items.len()
        invariant
            i <= items.len(),
            strings_view(v@) == strings_view(old(v)@) + items@.map_values(|x: &str| x@).take(
                i as int,
            ),
        decreases items.len() - i,
    {
        let ghost before = strings_view(v@);
        v.push(to_string(items[i]));
        assert(strings_view(v@) =~= before.push(items@[i as int]@));
        assert(items@.map_values(|x: &str| x@).take(i as int + 1) =~= items@.map_values(
            |x: &str| x@,
        ).take(i as int).push(items@[i as int]@));
        i = i + 1;
    }
    assert(items@.map_values(|x: &str| x@).take(i as int) =~= items@.map_values(|x: &str| x@));
}

fn strings_of(items: &[&str]) -> (r: Vec<String>)
    ensures
        strings_view(r@) == items@.map_values(|x: &str| x@),
{
    let mut v: Vec<String> = Vec::new();
    push_all(&mut v, items);
    assert(strings_view(v@) =~= items@.map_values(|x: &str| x@));
    v
}

fn classifier_tags_exec(k: u8) -> (r: Vec<String>)
    ensures
        strings_view(r@) == classifier_tags(k as nat),
{
    let items: &[&str] = if k == 0 {
        &["zhang", "ge", "ming", "wei", "tiao", "ben", "zhi"]
    } else if k == 1 {
        &["mai", "nin", "hiki", "hon", "ko", "satsu"]
    } else if k == 2 {
        &["jang", "myeong", "mari", "gae", "gwon"]
    } else if k == 3 {
        &["cai", "con", "nguoi", "chiec", "to"]
    } else if k == 4 {
        &["bai", "tua", "khon", "an"]
    } else {
        &["ta", "ti", "khana", "jon"]
    };
    let r = strings_of(items);
    assert(strings_view(r@) =~= classifier_tags(k as nat));
    r
}

fn classifier_words_exec(k: u8) -> (r: Vec<String>)
    ensures
        strings_view(r@) == classifier_words(k as nat),
{
    let items: &[&str] = if k == 0 {
        &["张", "个", "名", "位", "条", "本", "只"]
    } else if k == 1 {
        &["枚", "人", "匹", "本", "個", "冊"]
    } else if k == 2 {
        &["장", "명", "마리", "개", "권"]
    } else if k == 3 {
        &["cai", "con", "nguoi", "chiec", "to"]
    } else if k == 4 {
        &["ใบ", "ตัว", "คน", "อัน"]
    } else {
        &["টা", "টি", "খানা", "জন"]
    };
    let r = strings_of(items);
    assert(strings_view(r@) =~= classifier_words(k as nat));
    r
}

fn context_count(c: Option<&Value>) -> (r: i64)
    ensures
        r == count_of(opt_view(c)),
{
    match c {
        Some(Value::Number(n)) => *n,
        Some(Value::String(s)) => match crate::text::parse_i64(chars_of(s.as_str()).as_slice()) {
            Some(n) => n,
            None => 1,
        },
        _ => 1,
    }
}

fn count_exec(k: u8, v: &Value, c: Option<&Value>) -> (r: Result<String, EvalError>)
    ensures
        outcome(r) == count_spec(k as nat, v@, opt_view(c)),
{
    let text = v.display();
    let n = crate::text::i64_to_decimal(context_count(c));
    let tags = classifier_tags_exec(k);
    let words = classifier_words_exec(k);
    let ghost tv = strings_view(tags@);
    assert(classifier_words(k as nat).len() == classifier_tags(k as nat).len());
    let mut i: usize = 0;
    while i < tags.len()
        invariant
            i <= tags.len(),
            tv == strings_view(tags@),
            tv == classifier_tags(k as nat),
            strings_view(words@) == classifier_words(k as nat),
            classifier_words(k as nat).len() == classifier_tags(k as nat).len(),
            n@ == int_decimal(count_of(opt_view(c)) as int),
            text@ == value_text(v@),
            first_tag_index(v@, tv, 0) == first_tag_index(v@, tv, i as int),
        decreases tags.len() - i,
    {
        assert(tv[i as int] == tags@[i as int]@);
        if v.has_tag(tags[i].as_str()) {
            assert(strings_view(words@)[i as int] == words@[i as int]@);
            let w = words[i].as_str();
            assert(first_tag_index(v@, tv, i as int) == Some(i as int));
            assert(w@ == classifier_words(k as nat)[i as int]);
            let mut r = n;
            if k == 3 {
                push_str(&mut r, " ");
                push_str(&mut r, w);
                push_str(&mut r, " ");
            } else if k == 5 {
                push_str(&mut r, w);
                push_str(&mut r, " ");
            } else {
                push_str(&mut r, w);
            }
            push_str(&mut r, text.as_str());
            return Ok(r);
        }
        i = i + 1;
    }
    Err(missing_tag_exec("count", tags, text))
}

// ---------------------------------------------------------------------------
// Korean particles, Indonesian plural
// ---------------------------------------------------------------------------

/// Korean `@particle`: subject (`subj`, the default), object (`obj`) or
/// topic (`topic`) particle, by whether the text ends in a final consonant.
pub open spec fn korean_particle_spec(v: ValueModel, c: Option<ValueModel>) -> Seq<char> {
    let kind = match ctx_string(c) {
        Some(s) => if s == "obj"@ {
            1int
        } else if s == "topic"@ {
            2int
        } else {
            0int
        },
        None => 0int,
    };
    let consonant = match ends_with_final_consonant(value_text(v)) {
        Some(b) => b,
        None => false,
    };
    if kind == 0 {
        if consonant {
            "이"@
        } else {
            "가"@
        }
    } else if kind == 1 {
        if consonant {
            "을"@
        } else {
            "를"@
        }
    } else if consonant {
        "은"@
    } else {
        "는"@
    }
}

fn korean_particle_exec(v: &Value, c: Option<&Value>) -> (r: String)
    ensures
        r@ == korean_particle_spec(v@, opt_view(c)),
{
    let text = v.display();
    let kind: u8 = match context_string(c) {
        Some(s) => if str_eq(s, "obj") {
            1
        } else if str_eq(s, "topic") {
            2
        } else {
            0
        },
        None => 0,
    };
    let consonant = match jongseong_ending(text.as_str()) {
        Some(b) => b,
        None => false,
    };
    let p = if kind == 0 {
        if consonant {
            "이"
        } else {
            "가"
        }
    } else if kind == 1 {
        if consonant {
            "을"
        } else {
            "를"
        }
    } else if consonant {
        "은"
    } else {
        "는"
    };
    to_string(p)
}

// ---------------------------------------------------------------------------
// Suffix chains (Turkish, Finnish, Hungarian)
// ---------------------------------------------------------------------------

/// Suffix names of Turkish (0), Finnish (1) and Hungarian (2).
pub open spec fn suffix_names(lang: nat) -> Seq<Seq<char>> {
    if lang == 0 {
        seq![
            "pl"@, "nom"@, "acc"@, "gen"@, "dat"@, "loc"@, "abl"@, "poss1sg"@, "poss2sg"@,
            "poss3sg"@, "poss1pl"@, "poss2pl"@, "poss3pl"@,
        ]
    } else if lang == 1 {
        seq![
            "pl"@, "nom"@, "gen"@, "par"@, "ine"@, "ela"@, "ill"@, "ade"@, "abl"@, "all"@,
            "ess"@, "tra"@, "acc"@, "poss1sg"@, "poss2sg"@, "poss3sg"@, "poss1pl"@, "poss2pl"@,
            "poss3pl"@,
        ]
    } else {
        seq![
            "pl"@, "nom"@, "acc"@, "dat"@, "ine"@, "ill"@, "ela"@, "sup"@, "sub"@, "del"@,
            "ade"@, "abl"@, "all"@, "ins"@, "tra"@, "cau"@, "ter"@, "ess"@, "poss1sg"@,
            "poss2sg"@, "poss3sg"@, "poss1pl"@, "poss2pl"@, "poss3pl"@,
        ]
    }
}

/// The suffix forms, by the index of the suffix's name, for a harmony class:
/// Turkish front (0) / back (1); Finnish front (0) / back (1) (the illative
/// is formed from the word instead); Hungarian back (0), front (1),
/// front rounded (2).
pub open spec fn suffix_forms(lang: nat, h: nat) -> Seq<Seq<char>> {
    if lang == 0 {
        if h == 0 {
            seq![
                "ler"@, ""@, "i"@, "in"@, "e"@, "de"@, "den"@, "im"@, "in"@, "i"@, "imiz"@,
                "iniz"@, "leri"@,
            ]
        } else {
            seq![
                "lar"@, ""@, "ı"@, "ın"@, "a"@, "da"@, "dan"@, "ım"@, "ın"@, "ı"@, "ımız"@,
                "ınız"@, "ları"@,
            ]
        }
    } else if lang == 1 {
        if h == 0 {
            seq![
                "t"@, ""@, "n"@, "ä"@, "ssä"@, "stä"@, "n"@, "llä"@, "ltä"@, "lle"@, "nä"@,
                "ksi"@, "n"@, "ni"@, "si"@, "nsä"@, "mme"@, "nne"@, "nsä"@,
            ]
        } else {
            seq![
                "t"@, ""@, "n"@, "a"@, "ssa"@, "sta"@, "n"@, "lla"@, "lta"@, "lle"@, "na"@,
                "ksi"@, "n"@, "ni"@, "si"@, "nsa"@, "mme"@, "nne"@, "nsa"@,
            ]
        }
    } else if h == 0 {
        seq![
            "ak"@, ""@, "ot"@, "nak"@, "ban"@, "ba"@, "ból"@, "on"@, "ra"@, "ról"@, "nál"@,
            "tól"@, "hoz"@, "val"@, "vá"@, "ért"@, "ig"@, "ként"@, "om"@, "od"@, "a"@, "unk"@,
            "tok"@, "uk"@,
        ]
    } else if h == 1 {
        seq![
            "ek"@, ""@, "et"@, "nek"@, "ben"@, "be"@, "ből"@, "en"@, "re"@, "ről"@, "nél"@,
            "től"@, "hez"@, "vel"@, "vé"@, "ért"@, "ig"@, "ként"@, "em"@, "ed"@, "e"@, "ünk"@,
            "tek"@, "ük"@,
        ]
    } else {
        seq![
            "ök"@, ""@, "öt"@, "nek"@, "ben"@, "be"@, "ből"@, "ön"@, "re"@, "ről"@, "nél"@,
            "től"@, "höz"@, "vel"@, "vé"@, "ért"@, "ig"@, "ként"@, "öm"@, "öd"@, "e"@, "ünk"@,
            "tök"@, "ük"@,
        ]
    }
}

/// Index of the Finnish illative among the Finnish suffix names.
pub open spec fn finnish_illative() -> int {
    6
}

/// Index of `p` in `names`.
pub open spec fn name_index(names: Seq<Seq<char>>, p: Seq<char>, i: int) -> Option<int>
    decreases names.len() - i,
{
    if i < 0 || i >= names.len() {
        None
    } else if names[i] == p {
        Some(i)
    } else {
        name_index(names, p, i + 1)
    }
}

/// The suffixes a context names: its dot-separated parts that are suffix
/// names, in order; unknown parts are skipped.
pub open spec fn suffix_chain(names: Seq<Seq<char>>, parts: Seq<Seq<char>>) -> Seq<int>
    decreases parts.len(),
{
    if parts.len() == 0 {
        seq![]
    } else {
        let r = suffix_chain(names, parts.drop_last());
        match name_index(names, parts.last(), 0) {
            Some(i) => r.push(i),
            None => r,
        }
    }
}

pub open spec fn context_parts(c: Option<ValueModel>) -> Seq<Seq<char>> {
    match ctx_string(c) {
        Some(s) => split_dots(s),
        None => seq![],
    }
}

pub open spec fn is_finnish_vowel(c: char) -> bool {
    c == 'a' || c == 'e' || c == 'i' || c == 'o' || c == 'u' || c == 'y' || c == 'ä' || c == 'ö'
        || c == 'A' || c == 'E' || c == 'I' || c == 'O' || c == 'U' || c == 'Y' || c == 'Ä'
        || c == 'Ö'
}

pub open spec fn last_vowel(w: Seq<char>) -> Option<char>
    decreases w.len(),
{
    if w.len() == 0 {
        None
    } else if is_finnish_vowel(w.last()) {
        Some(w.last())
    } else {
        last_vowel(w.drop_last())
    }
}

/// The Finnish illative: the word's last vowel repeated and `n`.
pub open spec fn illative(w: Seq<char>) -> Seq<char> {
    match last_vowel(w) {
        Some(v) => w + seq![v, 'n'],
        None => w + seq!['n'],
    }
}

/// `word` with the suffixes of the chain appended in order.
pub open spec fn apply_chain(lang: nat, word: Seq<char>, chain: Seq<int>, forms: Seq<Seq<char>>) -> Seq<char>
    decreases chain.len(),
{
    if chain.len() == 0 {
        word
    } else {
        let w = apply_chain(lang, word, chain.drop_last(), forms);
        if lang == 1 && chain.last() == finnish_illative() {
            illative(w)
        } else {
            w + forms[chain.last()]
        }
    }
}

/// The harmony class that the value's tags give, or nothing.
pub open spec fn harmony_of(lang: nat, v: ValueModel) -> Option<nat> {
    if lang == 2 {
        if value_has_tag(v, "back"@) {
            Some(0)
        } else if value_has_tag(v, "front"@) {
            Some(1)
        } else if value_has_tag(v, "round"@) {
            Some(2)
        } else {
            None
        }
    } else if value_has_tag(v, "front"@) {
        Some(0)
    } else if value_has_tag(v, "back"@) {
        Some(1)
    } else {
        None
    }
}

/// `@inflect`: the text with the suffix chain of the context, in the harmony
/// class of the value's tags.
pub open spec fn inflect_spec(lang: nat, v: ValueModel, c: Option<ValueModel>) -> Result<Seq<char>, EvalErrorModel> {
    let text = value_text(v);
    match harmony_of(lang, v) {
        Some(h) => Ok(
            apply_chain(
                lang,
                text,
                suffix_chain(suffix_names(lang), context_parts(c)),
                suffix_forms(lang, h),
            ),
        ),
        None => Err(
            missing_tag(
                "inflect"@,
                if lang == 2 {
                    seq!["back"@, "front"@, "round"@]
                } else {
                    seq!["front"@, "back"@]
                },
                text,
            ),
        ),
    }
}

fn suffix_names_exec(lang: u8) -> (r: Vec<String>)
    ensures
        strings_view(r@) == suffix_names(lang as nat),
{
    let items: &[&str] = if lang == 0 {
        &[
            "pl", "nom", "acc", "gen", "dat", "loc", "abl", "poss1sg", "poss2sg", "poss3sg",
            "poss1pl", "poss2pl", "poss3pl",
        ]
    } else if lang == 1 {
        &[
            "pl", "nom", "gen", "par", "ine", "ela", "ill", "ade", "abl", "all", "ess", "tra",
            "acc", "poss1sg", "poss2sg", "poss3sg", "poss1pl", "poss2pl", "poss3pl",
        ]
    } else {
        &[
            "pl", "nom", "acc", "dat", "ine", "ill", "ela", "sup", "sub", "del", "ade", "abl",
            "all", "ins", "tra", "cau", "ter", "ess", "poss1sg", "poss2sg", "poss3sg", "poss1pl",
            "poss2pl", "poss3pl",
        ]
    };
    let r = strings_of(items);
    assert(strings_view(r@) =~= suffix_names(lang as nat));
    r
}

fn suffix_forms_exec(lang: u8, h: u8) -> (r: Vec<String>)
    ensures
        strings_view(r@) == suffix_forms(lang as nat, h as nat),
{
    let items: &[&str] = if lang == 0 {
        if h == 0 {
            &["ler", "", "i", "in", "e", "de", "den", "im", "in", "i", "imiz", "iniz", "leri"]
        } else {
            &["lar", "", "ı", "ın", "a", "da", "dan", "ım", "ın", "ı", "ımız", "ınız", "ları"]
        }
    } else if lang == 1 {
        if h == 0 {
            &[
                "t", "", "n", "ä", "ssä", "stä", "n", "llä", "ltä", "lle", "nä", "ksi", "n", "ni",
                "si", "nsä", "mme", "nne", "nsä",
            ]
        } else {
            &[
                "t", "", "n", "a", "ssa", "sta", "n", "lla", "lta", "lle", "na", "ksi", "n", "ni",
                "si", "nsa", "mme", "nne", "nsa",
            ]
        }
    } else if h == 0 {
        &[
            "ak", "", "ot", "nak", "ban", "ba", "ból", "on", "ra", "ról", "nál", "tól", "hoz",
            "val", "vá", "ért", "ig", "ként", "om", "od", "a", "unk", "tok", "uk",
        ]
    } else if h == 1 {
        &[
            "ek", "", "et", "nek", "ben", "be", "ből", "en", "re", "ről", "nél", "től", "hez",
            "vel", "vé", "ért", "ig", "ként", "em", "ed", "e", "ünk", "tek", "ük",
        ]
    } else {
        &[
            "ök", "", "öt", "nek", "ben", "be", "ből", "ön", "re", "ről", "nél", "től", "höz",
            "vel", "vé", "ért", "ig", "ként", "öm", "öd", "e", "ünk", "tök", "ük",
        ]
    };
    let r = strings_of(items);
    assert(strings_view(r@) =~= suffix_forms(lang as nat, h as nat));
    r
}

fn find_name(names: &Vec<String>, p: &Vec<char>) -> (r: Option<usize>)
    ensures
        match r {
            Some(i) => name_index(strings_view(names@), p@, 0) == Some(i as int),
            None => name_index(strings_view(names@), p@, 0) is None,
        },
{
    let ghost nv = strings_view(names@);
    let mut i: usize = 0;
    while i < names.len()
        invariant
            i <= names.len(),
            nv == strings_view(names@),
            name_index(nv, p@, 0) == name_index(nv, p@, i as int),
        decreases names.len() - i,
    {
        assert(nv[i as int] == names@[i as int]@);
        let n = chars_of(names[i].as_str());
        if crate::text::chars_eq(n.as_slice(), p.as_slice()) {
            return Some(i);
        }
        i = i + 1;
    }
    None
}

fn last_vowel_exec(w: &Vec<char>) -> (r: Option<char>)
    ensures
        r == last_vowel(w@),
{
    let mut i = w.len();
    assert(w@.take(i as int) =~= w@);
    while i > 0
        invariant
            i <= w.len(),
            last_vowel(w@) == last_vowel(w@.take(i as int)),
        decreases i,
    {
        let c = w[i - 1];
        assert(w@.take(i as int).last() == c);
        assert(w@.take(i as int).drop_last() =~= w@.take(i as int - 1));
        if c == 'a' || c == 'e' || c == 'i' || c == 'o' || c == 'u' || c == 'y' || c == 'ä' || c
            == 'ö' || c == 'A' || c == 'E' || c == 'I' || c == 'O' || c == 'U' || c == 'Y' || c
            == 'Ä' || c == 'Ö' {
            return Some(c);
        }
        i = i - 1;
    }
    None
}

fn inflect_exec(lang: u8, v: &Value, c: Option<&Value>) -> (r: Result<String, EvalError>)
    requires
        lang <= 2,
    ensures
        outcome(r) == inflect_spec(lang as nat, v@, opt_view(c)),
{
    let text = v.display();
    let h: u8 = if lang == 2 {
        if v.has_tag("back") {
            0
        } else if v.has_tag("front") {
            1
        } else if v.has_tag("round") {
            2
        } else {
            return Err(missing_tag_exec("inflect", vec_of3("back", "front", "round"), text));
        }
    } else if v.has_tag("front") {
        0
    } else if v.has_tag("back") {
        1
    } else {
        return Err(missing_tag_exec("inflect", vec_of("front", "back"), text));
    };
    let names = suffix_names_exec(lang);
    let forms = suffix_forms_exec(lang, h);
    let parts: Vec<Vec<char>> = match context_string(c) {
        Some(s) => split_dot_parts(&chars_of(s)),
        None => Vec::new(),
    };
    let ghost pv = parts.deep_view();
    assert(pv =~= context_parts(opt_view(c)));
    let ghost nv = strings_view(names@);
    let ghost fv = strings_view(forms@);
    let mut word = chars_of(text.as_str());
    let mut k: usize = 0;
    while k < parts.len()
        invariant
            k <= parts.len(),
            lang <= 2,
            pv == parts.deep_view(),
            nv == strings_view(names@),
            fv == strings_view(forms@),
            nv == suffix_names(lang as nat),
            fv == suffix_forms(lang as nat, h as nat),
            word@ == apply_chain(lang as nat, text@, suffix_chain(nv, pv.take(k as int)), fv),
        decreases parts.len() - k,
    {
        assert(pv.take(k as int + 1).drop_last() =~= pv.take(k as int));
        assert(pv[k as int] == parts@[k as int]@);
        match find_name(&names, &parts[k]) {
            Some(i) => {
                let ghost chain = suffix_chain(nv, pv.take(k as int + 1));
                assert(chain.drop_last() =~= suffix_chain(nv, pv.take(k as int)));
                proof {
                    assert(i < nv.len()) by {
                        lemma_name_index_bound(nv, parts@[k as int]@, 0);
                    }
                }
                if lang == 1 && i == 6 {
                    match last_vowel_exec(&word) {
                        Some(vw) => {
                            word.push(vw);
                            word.push('n');
                        },
                        None => {
                            word.push('n');
                        },
                    }
                } else {
                    assert(fv.len() == nv.len());
                    assert(fv[i as int] == forms@[i as int]@);
                    let f = chars_of(forms[i].as_str());
                    crate::text::extend_chars(&mut word, f.as_slice());
                }
            },
            None => {
                assert(suffix_chain(nv, pv.take(k as int + 1)) == suffix_chain(
                    nv,
                    pv.take(k as int),
                ));
            },
        }
        k = k + 1;
    }
    assert(pv.take(k as int) =~= pv);
    Ok(crate::text::string_of(word.as_slice()))
}

proof fn lemma_name_index_bound(names: Seq<Seq<char>>, p: Seq<char>, i: int)
    ensures
        name_index(names, p, i) matches Some(j) ==> 0 <= j < names.len(),
    decreases names.len() - i,
{
    if 0 <= i < names.len() && names[i] != p {
        lemma_name_index_bound(names, p, i + 1);
    }
}


// ---------------------------------------------------------------------------
// Dispatch
// ---------------------------------------------------------------------------

/// What a transform gives for a value, an optional context and a language.
pub open spec fn transform_spec(k: TransformKind, v: ValueModel, c: Option<ValueModel>, lang: Seq<char>) -> Result<Seq<char>, EvalErrorModel> {
    let text = value_text(v);
    match k {
        TransformKind::Cap => Ok(cap_spec(text, lang)),
        TransformKind::Upper => Ok(uppercase_of(text, lang)),
        TransformKind::Lower => Ok(lowercase_of(text, lang)),
        TransformKind::EnglishA => english_a_spec(v),
        TransformKind::EnglishThe => Ok("the "@ + text),
        TransformKind::GermanDer => german_spec(true, v, c),
        TransformKind::GermanEin => german_spec(false, v, c),
        TransformKind::DutchDe => dutch_de_spec(v),
        TransformKind::DutchEen => Ok("een "@ + text),
        TransformKind::SpanishEl => romance_spec(0, "el"@, v, c),
        TransformKind::SpanishUn => romance_spec(1, "un"@, v, c),
        TransformKind::PortugueseO => romance_spec(2, "o"@, v, c),
        TransformKind::PortugueseUm => gendered_indefinite_spec(true, v),
        TransformKind::PortugueseDe => romance_spec(3, "de"@, v, c),
        TransformKind::PortugueseEm => romance_spec(4, "em"@, v, c),
        TransformKind::FrenchLe => french_spec(0, "le"@, v, c),
        TransformKind::FrenchUn => gendered_indefinite_spec(false, v),
        TransformKind::FrenchDe => french_spec(1, "de"@, v, c),
        TransformKind::FrenchAu => french_spec(2, "au"@, v, c),
        TransformKind::FrenchLiaison => Ok(french_liaison_spec(v, c)),
        TransformKind::ItalianIl => italian_spec(0, "il"@, v, c),
        TransformKind::ItalianUn => italian_un_spec(v),
        TransformKind::ItalianDi => italian_spec(1, "di"@, v, c),
        TransformKind::ItalianA => italian_spec(2, "a"@, v, c),
        TransformKind::GreekO => greek_spec(true, v, c),
        TransformKind::GreekEnas => greek_spec(false, v, c),
        TransformKind::RomanianDef => romanian_spec(v, c),
        TransformKind::ArabicAl => arabic_spec(v),
        TransformKind::PersianEzafe => Ok(persian_spec(v)),
        TransformKind::ChineseCount => count_spec(0, v, c),
        TransformKind::JapaneseCount => count_spec(1, v, c),
        TransformKind::KoreanCount => count_spec(2, v, c),
        TransformKind::VietnameseCount => count_spec(3, v, c),
        TransformKind::ThaiCount => count_spec(4, v, c),
        TransformKind::BengaliCount => count_spec(5, v, c),
        TransformKind::IndonesianPlural => Ok(text + "-"@ + text),
        TransformKind::KoreanParticle => Ok(korean_particle_spec(v, c)),
        TransformKind::TurkishInflect => inflect_spec(0, v, c),
        TransformKind::FinnishInflect => inflect_spec(1, v, c),
        TransformKind::HungarianInflect => inflect_spec(2, v, c),
    }
}

impl TransformKind {
    /// Executes the transform on a value, with an optional context (case,
    /// plurality, count, suffix chain) and the language for case mapping.
    pub fn execute(&self, value: &Value, context: Option<&Value>, lang: &str) -> (r: Result<String, EvalError>)
        ensures
            outcome(r) == transform_spec(*self, value@, opt_view(context), lang@),
    {
        let text = value.display();
        match self {
            TransformKind::Cap => Ok(cap_exec(text.as_str(), lang)),
            TransformKind::Upper => Ok(uppercase(text.as_str(), lang)),
            TransformKind::Lower => Ok(lowercase(text.as_str(), lang)),
            TransformKind::EnglishA => english_a_exec(value),
            TransformKind::EnglishThe => Ok(concat("the ", text.as_str())),
            TransformKind::GermanDer => german_exec(true, value, context),
            TransformKind::GermanEin => german_exec(false, value, context),
            TransformKind::DutchDe => dutch_de_exec(value),
            TransformKind::DutchEen => Ok(concat("een ", text.as_str())),
            TransformKind::SpanishEl => romance_exec(0, "el", value, context),
            TransformKind::SpanishUn => romance_exec(1, "un", value, context),
            TransformKind::PortugueseO => romance_exec(2, "o", value, context),
            TransformKind::PortugueseUm => gendered_indefinite_exec(true, value),
            TransformKind::PortugueseDe => romance_exec(3, "de", value, context),
            TransformKind::PortugueseEm => romance_exec(4, "em", value, context),
            TransformKind::FrenchLe => french_exec(0, "le", value, context),
            TransformKind::FrenchUn => gendered_indefinite_exec(false, value),
            TransformKind::FrenchDe => french_exec(1, "de", value, context),
            TransformKind::FrenchAu => french_exec(2, "au", value, context),
            TransformKind::FrenchLiaison => Ok(french_liaison_exec(value, context)),
            TransformKind::ItalianIl => italian_exec(0, "il", value, context),
            TransformKind::ItalianUn => italian_un_exec(value),
            TransformKind::ItalianDi => italian_exec(1, "di", value, context),
            TransformKind::ItalianA => italian_exec(2, "a", value, context),
            TransformKind::GreekO => greek_exec(true, value, context),
            TransformKind::GreekEnas => greek_exec(false, value, context),
            TransformKind::RomanianDef => romanian_exec(value, context),
            TransformKind::ArabicAl => arabic_exec(value),
            TransformKind::PersianEzafe => Ok(persian_exec(value)),
            TransformKind::ChineseCount => count_exec(0, value, context),
            TransformKind::JapaneseCount => count_exec(1, value, context),
            TransformKind::KoreanCount => count_exec(2, value, context),
            TransformKind::VietnameseCount => count_exec(3, value, context),
            TransformKind::ThaiCount => count_exec(4, value, context),
            TransformKind::BengaliCount => count_exec(5, value, context),
            TransformKind::IndonesianPlural => {
                let mut r = concat(text.as_str(), "-");
                push_str(&mut r, text.as_str());
                Ok(r)
            },
            TransformKind::KoreanParticle => Ok(korean_particle_exec(value, context)),
            TransformKind::TurkishInflect => inflect_exec(0, value, context),
            TransformKind::FinnishInflect => inflect_exec(1, value, context),
            TransformKind::HungarianInflect => inflect_exec(2, value, context),
        }
    }
}

// ---------------------------------------------------------------------------
// Registry
// ---------------------------------------------------------------------------

/// The name a transform name stands for in a language: `@an` is `@a`,
/// `@die`/`@das` are `@der`, `@la` is `@el` in Spanish, and so on.
pub open spec fn canonical_name(name: Seq<char>, lang: Seq<char>) -> Seq<char> {
    if name == "an"@ {
        "a"@
    } else if name == "die"@ || name == "das"@ {
        "der"@
    } else if name == "eine"@ {
        "ein"@
    } else if name == "het"@ {
        "de"@
    } else if name == "la"@ && lang == "es"@ {
        "el"@
    } else if name == "una"@ && lang == "es"@ {
        "un"@
    } else if name == "a"@ && lang == "pt"@ {
        "o"@
    } else if name == "uma"@ {
        "um"@
    } else if name == "la"@ && lang == "fr"@ {
        "le"@
    } else if name == "une"@ && lang == "fr"@ {
        "un"@
    } else if (name == "lo"@ || name == "la"@) && lang == "it"@ {
        "il"@
    } else if (name == "uno"@ || name == "una"@) && lang == "it"@ {
        "un"@
    } else if (name == "i"@ || name == "to"@) && lang == "el"@ {
        "o"@
    } else if (name == "mia"@ || name == "ena"@) && lang == "el"@ {
        "enas"@
    } else {
        name
    }
}

/// The language-specific transform of a canonical name.
pub open spec fn language_transform(lang: Seq<char>, name: Seq<char>) -> Option<TransformKind> {
    if lang == "en"@ && name == "a"@ {
        Some(TransformKind::EnglishA)
    } else if lang == "en"@ && name == "the"@ {
        Some(TransformKind::EnglishThe)
    } else if lang == "de"@ && name == "der"@ {
        Some(TransformKind::GermanDer)
    } else if lang == "de"@ && name == "ein"@ {
        Some(TransformKind::GermanEin)
    } else if lang == "nl"@ && name == "de"@ {
        Some(TransformKind::DutchDe)
    } else if lang == "nl"@ && name == "een"@ {
        Some(TransformKind::DutchEen)
    } else if lang == "es"@ && name == "el"@ {
        Some(TransformKind::SpanishEl)
    } else if lang == "es"@ && name == "un"@ {
        Some(TransformKind::SpanishUn)
    } else if lang == "pt"@ && name == "o"@ {
        Some(TransformKind::PortugueseO)
    } else if lang == "pt"@ && name == "um"@ {
        Some(TransformKind::PortugueseUm)
    } else if lang == "pt"@ && name == "de"@ {
        Some(TransformKind::PortugueseDe)
    } else if lang == "pt"@ && name == "em"@ {
        Some(TransformKind::PortugueseEm)
    } else if lang == "fr"@ && name == "le"@ {
        Some(TransformKind::FrenchLe)
    } else if lang == "fr"@ && name == "un"@ {
        Some(TransformKind::FrenchUn)
    } else if lang == "fr"@ && name == "de"@ {
        Some(TransformKind::FrenchDe)
    } else if lang == "fr"@ && name == "au"@ {
        Some(TransformKind::FrenchAu)
    } else if lang == "fr"@ && name == "liaison"@ {
        Some(TransformKind::FrenchLiaison)
    } else if lang == "it"@ && name == "il"@ {
        Some(TransformKind::ItalianIl)
    } else if lang == "it"@ && name == "un"@ {
        Some(TransformKind::ItalianUn)
    } else if lang == "it"@ && name == "di"@ {
        Some(TransformKind::ItalianDi)
    } else if lang == "it"@ && name == "a"@ {
        Some(TransformKind::ItalianA)
    } else if lang == "el"@ && name == "o"@ {
        Some(TransformKind::GreekO)
    } else if lang == "el"@ && name == "enas"@ {
        Some(TransformKind::GreekEnas)
    } else if lang == "ro"@ && name == "def"@ {
        Some(TransformKind::RomanianDef)
    } else if lang == "ar"@ && name == "al"@ {
        Some(TransformKind::ArabicAl)
    } else if lang == "fa"@ && name == "ezafe"@ {
        Some(TransformKind::PersianEzafe)
    } else if lang == "zh"@ && name == "count"@ {
        Some(TransformKind::ChineseCount)
    } else if lang == "ja"@ && name == "count"@ {
        Some(TransformKind::JapaneseCount)
    } else if lang == "ko"@ && name == "count"@ {
        Some(TransformKind::KoreanCount)
    } else if lang == "vi"@ && name == "count"@ {
        Some(TransformKind::VietnameseCount)
    } else if lang == "th"@ && name == "count"@ {
        Some(TransformKind::ThaiCount)
    } else if lang == "bn"@ && name == "count"@ {
        Some(TransformKind::BengaliCount)
    } else if lang == "id"@ && name == "plural"@ {
        Some(TransformKind::IndonesianPlural)
    } else if lang == "ko"@ && name == "particle"@ {
        Some(TransformKind::KoreanParticle)
    } else if lang == "tr"@ && name == "inflect"@ {
        Some(TransformKind::TurkishInflect)
    } else if lang == "fi"@ && name == "inflect"@ {
        Some(TransformKind::FinnishInflect)
    } else if lang == "hu"@ && name == "inflect"@ {
        Some(TransformKind::HungarianInflect)
    } else {
        None
    }
}

/// The transform a name gives in a language: the universal `@cap`,
/// `@upper`, `@lower`, else the language's own.
pub open spec fn transform_lookup(name: Seq<char>, lang: Seq<char>) -> Option<TransformKind> {
    let c = canonical_name(name, lang);
    if c == "cap"@ {
        Some(TransformKind::Cap)
    } else if c == "upper"@ {
        Some(TransformKind::Upper)
    } else if c == "lower"@ {
        Some(TransformKind::Lower)
    } else {
        language_transform(lang, c)
    }
}

fn canonical_name_exec(name: &str, lang: &str) -> (r: String)
    ensures
        r@ == canonical_name(name@, lang@),
{
    let c = if str_eq(name, "an") {
        "a"
    } else if str_eq(name, "die") || str_eq(name, "das") {
        "der"
    } else if str_eq(name, "eine") {
        "ein"
    } else if str_eq(name, "het") {
        "de"
    } else if str_eq(name, "la") && str_eq(lang, "es") {
        "el"
    } else if str_eq(name, "una") && str_eq(lang, "es") {
        "un"
    } else if str_eq(name, "a") && str_eq(lang, "pt") {
        "o"
    } else if str_eq(name, "uma") {
        "um"
    } else if str_eq(name, "la") && str_eq(lang, "fr") {
        "le"
    } else if str_eq(name, "une") && str_eq(lang, "fr") {
        "un"
    } else if (str_eq(name, "lo") || str_eq(name, "la")) && str_eq(lang, "it") {
        "il"
    } else if (str_eq(name, "uno") || str_eq(name, "una")) && str_eq(lang, "it") {
        "un"
    } else if (str_eq(name, "i") || str_eq(name, "to")) && str_eq(lang, "el") {
        "o"
    } else if (str_eq(name, "mia") || str_eq(name, "ena")) && str_eq(lang, "el") {
        "enas"
    } else {
        name
    };
    to_string(c)
}

fn language_transform_exec(lang: &str, name: &str) -> (r: Option<TransformKind>)
    ensures
        r == language_transform(lang@, name@),
{
    if str_eq(lang, "en") && str_eq(name, "a") {
        Some(TransformKind::EnglishA)
    } else if str_eq(lang, "en") && str_eq(name, "the") {
        Some(TransformKind::EnglishThe)
    } else if str_eq(lang, "de") && str_eq(name, "der") {
        Some(TransformKind::GermanDer)
    } else if str_eq(lang, "de") && str_eq(name, "ein") {
        Some(TransformKind::GermanEin)
    } else if str_eq(lang, "nl") && str_eq(name, "de") {
        Some(TransformKind::DutchDe)
    } else if str_eq(lang, "nl") && str_eq(name, "een") {
        Some(TransformKind::DutchEen)
    } else if str_eq(lang, "es") && str_eq(name, "el") {
        Some(TransformKind::SpanishEl)
    } else if str_eq(lang, "es") && str_eq(name, "un") {
        Some(TransformKind::SpanishUn)
    } else if str_eq(lang, "pt") && str_eq(name, "o") {
        Some(TransformKind::PortugueseO)
    } else if str_eq(lang, "pt") && str_eq(name, "um") {
        Some(TransformKind::PortugueseUm)
    } else if str_eq(lang, "pt") && str_eq(name, "de") {
        Some(TransformKind::PortugueseDe)
    } else if str_eq(lang, "pt") && str_eq(name, "em") {
        Some(TransformKind::PortugueseEm)
    } else if str_eq(lang, "fr") && str_eq(name, "le") {
        Some(TransformKind::FrenchLe)
    } else if str_eq(lang, "fr") && str_eq(name, "un") {
        Some(TransformKind::FrenchUn)
    } else if str_eq(lang, "fr") && str_eq(name, "de") {
        Some(TransformKind::FrenchDe)
    } else if str_eq(lang, "fr") && str_eq(name, "au") {
        Some(TransformKind::FrenchAu)
    } else if str_eq(lang, "fr") && str_eq(name, "liaison") {
        Some(TransformKind::FrenchLiaison)
    } else if str_eq(lang, "it") && str_eq(name, "il") {
        Some(TransformKind::ItalianIl)
    } else if str_eq(lang, "it") && str_eq(name, "un") {
        Some(TransformKind::ItalianUn)
    } else if str_eq(lang, "it") && str_eq(name, "di") {
        Some(TransformKind::ItalianDi)
    } else if str_eq(lang, "it") && str_eq(name, "a") {
        Some(TransformKind::ItalianA)
    } else if str_eq(lang, "el") && str_eq(name, "o") {
        Some(TransformKind::GreekO)
    } else if str_eq(lang, "el") && str_eq(name, "enas") {
        Some(TransformKind::GreekEnas)
    } else if str_eq(lang, "ro") && str_eq(name, "def") {
        Some(TransformKind::RomanianDef)
    } else if str_eq(lang, "ar") && str_eq(name, "al") {
        Some(TransformKind::ArabicAl)
    } else if str_eq(lang, "fa") && str_eq(name, "ezafe") {
        Some(TransformKind::PersianEzafe)
    } else if str_eq(lang, "zh") && str_eq(name, "count") {
        Some(TransformKind::ChineseCount)
    } else if str_eq(lang, "ja") && str_eq(name, "count") {
        Some(TransformKind::JapaneseCount)
    } else if str_eq(lang, "ko") && str_eq(name, "count") {
        Some(TransformKind::KoreanCount)
    } else if str_eq(lang, "vi") && str_eq(name, "count") {
        Some(TransformKind::VietnameseCount)
    } else if str_eq(lang, "th") && str_eq(name, "count") {
        Some(TransformKind::ThaiCount)
    } else if str_eq(lang, "bn") && str_eq(name, "count") {
        Some(TransformKind::BengaliCount)
    } else if str_eq(lang, "id") && str_eq(name, "plural") {
        Some(TransformKind::IndonesianPlural)
    } else if str_eq(lang, "ko") && str_eq(name, "particle") {
        Some(TransformKind::KoreanParticle)
    } else if str_eq(lang, "tr") && str_eq(name, "inflect") {
        Some(TransformKind::TurkishInflect)
    } else if str_eq(lang, "fi") && str_eq(name, "inflect") {
        Some(TransformKind::FinnishInflect)
    } else if str_eq(lang, "hu") && str_eq(name, "inflect") {
        Some(TransformKind::HungarianInflect)
    } else {
        None
    }
}

/// Registry of the transforms: universal ones and those of each language.
pub struct TransformRegistry {}

impl TransformRegistry {
    /// A registry with the built-in transforms.
    pub fn new() -> (r: TransformRegistry) {
        TransformRegistry {  }
    }

    /// The transform that `name` gives in `lang`, after resolving aliases.
    pub fn get(&self, name: &str, lang: &str) -> (r: Option<TransformKind>)
        ensures
            r == transform_lookup(name@, lang@),
    {
        let c = canonical_name_exec(name, lang);
        let cs = c.as_str();
        if str_eq(cs, "cap") {
            Some(TransformKind::Cap)
        } else if str_eq(cs, "upper") {
            Some(TransformKind::Upper)
        } else if str_eq(cs, "lower") {
            Some(TransformKind::Lower)
        } else {
            language_transform_exec(lang, cs)
        }
    }

    /// Whether `name` gives a transform in `lang`.
    pub fn has_transform(&self, name: &str, lang: &str) -> (r: bool)
        ensures
            r == (transform_lookup(name@, lang@) is Some),
    {
        self.get(name, lang).is_some()
    }
}

} // verus!
