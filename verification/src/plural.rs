//! CLDR plural categories of numbers per language.
use vstd::prelude::*;
use crate::text::str_eq;

verus! {

/// The CLDR plural categories.
#[derive(Debug, Clone, Copy, PartialEq, Eq, Structural)]
pub enum PluralForm {
    Zero,
    One,
    Two,
    Few,
    Many,
    Other,
}

/// The languages with plural rules of their own; others use English rules.
pub open spec fn supported_languages() -> Seq<Seq<char>> {
    seq!["ar"@, "bn"@, "de"@, "el"@, "en"@, "es"@, "fa"@, "fr"@, "he"@, "hi"@, "id"@, "it"@, "ja"@, "ko"@, "nl"@, "pl"@, "pt"@, "ro"@, "ru"@, "th"@, "tr"@, "uk"@, "vi"@, "zh"@]
}

/// A supported language code as it is, else `en`.
pub open spec fn normalized_lang(lang: Seq<char>) -> Seq<char> {
    if supported_languages().contains(lang) {
        lang
    } else {
        "en"@
    }
}

/// The CLDR cardinal plural category of `n` in the (supported) language
/// `lang`, as `icu_plurals` gives it from its compiled data.
pub uninterp spec fn cldr_form(lang: Seq<char>, n: i64) -> PluralForm;

/// `PluralRules::try_new` for the locale `lang` with cardinal rules, then
/// `category_for(n)` (icu_plurals, compiled data). The language must be one
/// of the supported codes, all of which parse as locales and have data.
/// Claimed: the result is the named category of the arguments.
#[verifier::external_body]
fn cardinal_form(lang: &str, n: i64) -> (r: PluralForm)
    requires
        supported_languages().contains(lang@),
    ensures
        r == cldr_form(lang@, n),
{
    let loc: icu_locale_core::Locale = lang.parse().expect("supported language code");
    let rules = icu_plurals::PluralRules::try_new(
        loc.into(),
        icu_plurals::PluralRuleType::Cardinal.into(),
    ).expect("locale should be supported");
    match rules.category_for(n) {
        icu_plurals::PluralCategory::Zero => PluralForm::Zero,
        icu_plurals::PluralCategory::One => PluralForm::One,
        icu_plurals::PluralCategory::Two => PluralForm::Two,
        icu_plurals::PluralCategory::Few => PluralForm::Few,
        icu_plurals::PluralCategory::Many => PluralForm::Many,
        icu_plurals::PluralCategory::Other => PluralForm::Other,
    }
}

/// The name of a category.
pub open spec fn form_name(f: PluralForm) -> Seq<char> {
    match f {
        PluralForm::Zero => "zero"@,
        PluralForm::One => "one"@,
        PluralForm::Two => "two"@,
        PluralForm::Few => "few"@,
        PluralForm::Many => "many"@,
        PluralForm::Other => "other"@,
    }
}

fn category_str(f: PluralForm) -> (r: &'static str)
    ensures
        r@ == form_name(f),
{
    match f {
        PluralForm::Zero => "zero",
        PluralForm::One => "one",
        PluralForm::Two => "two",
        PluralForm::Few => "few",
        PluralForm::Many => "many",
        PluralForm::Other => "other",
    }
}

fn normalize_lang(lang: &str) -> (r: &'static str)
    ensures
        r@ == normalized_lang(lang@),
        supported_languages().contains(r@),
{
    let codes: &[&str] = &["ar", "bn", "de", "el", "en", "es", "fa", "fr", "he", "hi", "id", "it", "ja", "ko", "nl", "pl", "pt", "ro", "ru", "th", "tr", "uk", "vi", "zh"];
    assert(codes@.map_values(|x: &str| x@) =~= supported_languages());
    let mut i: usize = 0;
    while i < codes.len()
        invariant
            i <= codes.len(),
            codes@.map_values(|x: &str| x@) == supported_languages(),
            forall|j: int| 0 <= j < i ==> supported_languages()[j] != lang@,
        decreases codes.len() - i,
    {
        assert(supported_languages()[i as int] == codes@[i as int]@);
        if str_eq(codes[i], lang) {
            assert(supported_languages().contains(lang@));
            return codes[i];
        }
        i = i + 1;
    }
    assert(supported_languages()[4] == "en"@);
    "en"
}

/// The CLDR plural category (`zero`, `one`, `two`, `few`, `many`, `other`)
/// of `n` in language `lang`; languages without rules of their own use the
/// English rules.
pub fn plural_category(lang: &str, n: i64) -> (r: &'static str)
    ensures
        r@ == form_name(cldr_form(normalized_lang(lang@), n)),
{
    let code = normalize_lang(lang);
    category_str(cardinal_form(code, n))
}

} // verus!
