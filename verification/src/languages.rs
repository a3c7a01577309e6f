//! Subtitle language names for the language codes the pages show.

use vstd::prelude::*;

use crate::text::str_eq;

verus! {

/// The language name shown for a subtitle language code: English for an
/// absent code, a fixed table for the known codes, and a generic name for
/// the rest.
pub open spec fn spec_language_name(abbreviation: Seq<char>) -> Seq<char> {
    if abbreviation == ""@ {
        "English"@
    } else if abbreviation == "ar"@ {
        "Arabic"@
    } else if abbreviation == "bn"@ {
        "Bengali"@
    } else if abbreviation == "de"@ {
        "German"@
    } else if abbreviation == "en"@ {
        "English"@
    } else if abbreviation == "es"@ {
        "Spanish"@
    } else if abbreviation == "fr"@ {
        "French"@
    } else if abbreviation == "hi"@ {
        "Hindi"@
    } else if abbreviation == "id"@ {
        "Indonesian"@
    } else if abbreviation == "ja"@ {
        "Japanese"@
    } else if abbreviation == "pt"@ {
        "Portuguese"@
    } else if abbreviation == "ru"@ {
        "Russian"@
    } else if abbreviation == "ur"@ {
        "Urdu"@
    } else if abbreviation == "zh"@ {
        "Chinese"@
    } else {
        "Other"@
    }
}

/// Lengthen a language, for example `"en"` to `"English"`.
pub fn language_abbrevation_to_name(abbreviation: &str) -> (r: &'static str)
    ensures
        r@ == spec_language_name(abbreviation@),
{
    if str_eq(abbreviation, "") {
        "English"
    } else if str_eq(abbreviation, "ar") {
        "Arabic"
    } else if str_eq(abbreviation, "bn") {
        "Bengali"
    } else if str_eq(abbreviation, "de") {
        "German"
    } else if str_eq(abbreviation, "en") {
        "English"
    } else if str_eq(abbreviation, "es") {
        "Spanish"
    } else if str_eq(abbreviation, "fr") {
        "French"
    } else if str_eq(abbreviation, "hi") {
        "Hindi"
    } else if str_eq(abbreviation, "id") {
        "Indonesian"
    } else if str_eq(abbreviation, "ja") {
        "Japanese"
    } else if str_eq(abbreviation, "pt") {
        "Portuguese"
    } else if str_eq(abbreviation, "ru") {
        "Russian"
    } else if str_eq(abbreviation, "ur") {
        "Urdu"
    } else if str_eq(abbreviation, "zh") {
        "Chinese"
    } else {
        "Other"
    }
}

} // verus!
