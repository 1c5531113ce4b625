//! Tags and variant key components that each language recognises.
use vstd::prelude::*;
use crate::text::str_eq;

verus! {

/// The tags a language recognises; `None` where any tag is accepted.
pub open spec fn valid_tags_of(lang: Seq<char>) -> Option<Seq<Seq<char>>> {
    if lang == "pl"@ {
        Some(seq!["masc_anim"@, "masc_inan"@, "fem"@, "neut"@])
    } else if lang == "cs"@ {
        Some(seq!["masc_anim"@, "masc_inan"@, "fem"@, "neut"@])
    } else if lang == "ru"@ {
        Some(seq!["masc"@, "fem"@, "neut"@, "anim"@, "inan"@])
    } else if lang == "uk"@ {
        Some(seq!["masc"@, "fem"@, "neut"@, "anim"@, "inan"@])
    } else if lang == "de"@ {
        Some(seq!["masc"@, "fem"@, "neut"@])
    } else if lang == "es"@ {
        Some(seq!["masc"@, "fem"@])
    } else if lang == "fr"@ {
        Some(seq!["masc"@, "fem"@, "vowel"@])
    } else if lang == "pt"@ {
        Some(seq!["masc"@, "fem"@])
    } else if lang == "it"@ {
        Some(seq!["masc"@, "fem"@, "vowel"@, "s_imp"@])
    } else if lang == "en"@ {
        Some(seq!["a"@, "an"@])
    } else if lang == "nl"@ {
        Some(seq!["de"@, "het"@])
    } else if lang == "el"@ {
        Some(seq!["masc"@, "fem"@, "neut"@])
    } else if lang == "ro"@ {
        Some(seq!["masc"@, "fem"@, "neut"@])
    } else if lang == "ar"@ {
        Some(seq!["masc"@, "fem"@, "sun"@, "moon"@])
    } else if lang == "hi"@ {
        Some(seq!["masc"@, "fem"@])
    } else if lang == "tr"@ {
        Some(seq!["front"@, "back"@])
    } else if lang == "fi"@ {
        Some(seq!["front"@, "back"@])
    } else if lang == "hu"@ {
        Some(seq!["back"@, "front"@, "round"@])
    } else if lang == "fa"@ {
        Some(seq!["vowel"@])
    } else if lang == "zh"@ {
        Some(seq!["zhang"@, "ge"@, "ming"@, "wei"@, "tiao"@, "ben"@, "zhi"@])
    } else if lang == "ja"@ {
        Some(seq!["mai"@, "nin"@, "hiki"@, "hon"@, "ko"@, "satsu"@])
    } else if lang == "ko"@ {
        Some(seq!["jang"@, "myeong"@, "mari"@, "gae"@, "gwon"@])
    } else if lang == "vi"@ {
        Some(seq!["cai"@, "con"@, "nguoi"@, "chiec"@, "to"@])
    } else if lang == "th"@ {
        Some(seq!["bai"@, "tua"@, "khon"@, "an"@])
    } else if lang == "bn"@ {
        Some(seq!["ta"@, "ti"@, "khana"@, "jon"@])
    } else {
        None
    }
}

/// The metadata tags recognised for `lang`, or `None` where the language
/// accepts any.
pub fn valid_tags(lang: &str) -> (r: Option<&'static [&'static str]>)
    ensures
        match r {
            Some(t) => valid_tags_of(lang@) == Some(t@.map_values(|x: &str| x@)),
            None => valid_tags_of(lang@) is None,
        },
{
    let r: Option<&'static [&'static str]> = if str_eq(lang, "pl") {
        Some(&["masc_anim", "masc_inan", "fem", "neut"])
    } else if str_eq(lang, "cs") {
        Some(&["masc_anim", "masc_inan", "fem", "neut"])
    } else if str_eq(lang, "ru") {
        Some(&["masc", "fem", "neut", "anim", "inan"])
    } else if str_eq(lang, "uk") {
        Some(&["masc", "fem", "neut", "anim", "inan"])
    } else if str_eq(lang, "de") {
        Some(&["masc", "fem", "neut"])
    } else if str_eq(lang, "es") {
        Some(&["masc", "fem"])
    } else if str_eq(lang, "fr") {
        Some(&["masc", "fem", "vowel"])
    } else if str_eq(lang, "pt") {
        Some(&["masc", "fem"])
    } else if str_eq(lang, "it") {
        Some(&["masc", "fem", "vowel", "s_imp"])
    } else if str_eq(lang, "en") {
        Some(&["a", "an"])
    } else if str_eq(lang, "nl") {
        Some(&["de", "het"])
    } else if str_eq(lang, "el") {
        Some(&["masc", "fem", "neut"])
    } else if str_eq(lang, "ro") {
        Some(&["masc", "fem", "neut"])
    } else if str_eq(lang, "ar") {
        Some(&["masc", "fem", "sun", "moon"])
    } else if str_eq(lang, "hi") {
        Some(&["masc", "fem"])
    } else if str_eq(lang, "tr") {
        Some(&["front", "back"])
    } else if str_eq(lang, "fi") {
        Some(&["front", "back"])
    } else if str_eq(lang, "hu") {
        Some(&["back", "front", "round"])
    } else if str_eq(lang, "fa") {
        Some(&["vowel"])
    } else if str_eq(lang, "zh") {
        Some(&["zhang", "ge", "ming", "wei", "tiao", "ben", "zhi"])
    } else if str_eq(lang, "ja") {
        Some(&["mai", "nin", "hiki", "hon", "ko", "satsu"])
    } else if str_eq(lang, "ko") {
        Some(&["jang", "myeong", "mari", "gae", "gwon"])
    } else if str_eq(lang, "vi") {
        Some(&["cai", "con", "nguoi", "chiec", "to"])
    } else if str_eq(lang, "th") {
        Some(&["bai", "tua", "khon", "an"])
    } else if str_eq(lang, "bn") {
        Some(&["ta", "ti", "khana", "jon"])
    } else {
        None
    };
    proof {
        match r {
            Some(t) => {
                assert(valid_tags_of(lang@) matches Some(s) && s =~= t@.map_values(|x: &str| x@));
            },
            None => {},
        }
    }
    r
}

/// The variant key components (case names and plural categories) a
/// language recognises; `None` where it has no rules.
pub open spec fn valid_variant_keys_of(lang: Seq<char>) -> Option<Seq<Seq<char>>> {
    if lang == "pl"@ {
        Some(seq!["nom"@, "acc"@, "gen"@, "dat"@, "ins"@, "loc"@, "voc"@, "one"@, "few"@, "many"@, "other"@])
    } else if lang == "cs"@ {
        Some(seq!["nom"@, "acc"@, "gen"@, "dat"@, "ins"@, "loc"@, "voc"@, "one"@, "few"@, "many"@, "other"@])
    } else if lang == "ru"@ {
        Some(seq!["nom"@, "acc"@, "gen"@, "dat"@, "ins"@, "prep"@, "one"@, "few"@, "many"@, "other"@])
    } else if lang == "uk"@ {
        Some(seq!["nom"@, "acc"@, "gen"@, "dat"@, "ins"@, "loc"@, "voc"@, "one"@, "few"@, "many"@, "other"@])
    } else if lang == "de"@ {
        Some(seq!["nom"@, "acc"@, "dat"@, "gen"@, "one"@, "other"@])
    } else if lang == "hi"@ {
        Some(seq!["dir"@, "obl"@, "voc"@, "one"@, "other"@])
    } else if lang == "ar"@ {
        Some(seq!["zero"@, "one"@, "two"@, "few"@, "many"@, "other"@])
    } else if lang == "el"@ {
        Some(seq!["nom"@, "acc"@, "gen"@, "voc"@, "one"@, "other"@])
    } else if lang == "ro"@ {
        Some(seq!["nom"@, "gen"@, "one"@, "few"@, "other"@])
    } else {
        None
    }
}

/// The variant key components recognised for `lang`, or `None` where the
/// language has no rules.
pub fn valid_variant_keys(lang: &str) -> (r: Option<&'static [&'static str]>)
    ensures
        match r {
            Some(t) => valid_variant_keys_of(lang@) == Some(t@.map_values(|x: &str| x@)),
            None => valid_variant_keys_of(lang@) is None,
        },
{
    let r: Option<&'static [&'static str]> = if str_eq(lang, "pl") {
        Some(&["nom", "acc", "gen", "dat", "ins", "loc", "voc", "one", "few", "many", "other"])
    } else if str_eq(lang, "cs") {
        Some(&["nom", "acc", "gen", "dat", "ins", "loc", "voc", "one", "few", "many", "other"])
    } else if str_eq(lang, "ru") {
        Some(&["nom", "acc", "gen", "dat", "ins", "prep", "one", "few", "many", "other"])
    } else if str_eq(lang, "uk") {
        Some(&["nom", "acc", "gen", "dat", "ins", "loc", "voc", "one", "few", "many", "other"])
    } else if str_eq(lang, "de") {
        Some(&["nom", "acc", "dat", "gen", "one", "other"])
    } else if str_eq(lang, "hi") {
        Some(&["dir", "obl", "voc", "one", "other"])
    } else if str_eq(lang, "ar") {
        Some(&["zero", "one", "two", "few", "many", "other"])
    } else if str_eq(lang, "el") {
        Some(&["nom", "acc", "gen", "voc", "one", "other"])
    } else if str_eq(lang, "ro") {
        Some(&["nom", "gen", "one", "few", "other"])
    } else {
        None
    };
    proof {
        match r {
            Some(t) => {
                assert(valid_variant_keys_of(lang@) matches Some(s) && s =~= t@.map_values(|x: &str| x@));
            },
            None => {},
        }
    }
    r
}

} // verus!
