//! The word-stemming boundary.
//!
//! Stemming itself is a stateless lookup into an external per-language
//! stemming table and carries no design content of its own; what belongs to
//! this core is the decision in front of it: which language names select a
//! table at all. An unsupported name is rejected by the caller with an error
//! that names it.

use vstd::prelude::*;

verus! {

/// The languages an external stemming table exists for.
#[derive(Clone, Copy, Debug, PartialEq, Eq, Structural)]
pub enum Language {
    English,
    Danish,
    Arabic,
    Dutch,
    Finnish,
    French,
    German,
    Greek,
    Hungarian,
    Italian,
    Norwegian,
    Portuguese,
    Romanian,
    Russian,
    Spanish,
    Swedish,
    Tamil,
    Turkish,
}

/// The language a name selects, if any: the first match of the name against
/// the supported set.
pub open spec fn spec_language_of(name: Seq<char>) -> Option<Language> {
    if name == "english"@ {
        Some(Language::English)
    } else if name == "danish"@ {
        Some(Language::Danish)
    } else if name == "arabic"@ {
        Some(Language::Arabic)
    } else if name == "dutch"@ {
        Some(Language::Dutch)
    } else if name == "finnish"@ {
        Some(Language::Finnish)
    } else if name == "french"@ {
        Some(Language::French)
    } else if name == "german"@ {
        Some(Language::German)
    } else if name == "greek"@ {
        Some(Language::Greek)
    } else if name == "hungarian"@ {
        Some(Language::Hungarian)
    } else if name == "italian"@ {
        Some(Language::Italian)
    } else if name == "norwegian"@ {
        Some(Language::Norwegian)
    } else if name == "portuguese"@ {
        Some(Language::Portuguese)
    } else if name == "romanian"@ {
        Some(Language::Romanian)
    } else if name == "russian"@ {
        Some(Language::Russian)
    } else if name == "spanish"@ {
        Some(Language::Spanish)
    } else if name == "swedish"@ {
        Some(Language::Swedish)
    } else if name == "tamil"@ {
        Some(Language::Tamil)
    } else if name == "turkish"@ {
        Some(Language::Turkish)
    } else {
        None
    }
}

/// Parses a language name against the supported set; `None` is the caller's
/// cue to fail with an error naming the unsupported language.
pub fn parse_language(name: &str) -> (out: Option<Language>)
    ensures
        out == spec_language_of(name@),
{
    let given = name.to_owned();
    if given == "english".to_owned() {
        Some(Language::English)
    } else if given == "danish".to_owned() {
        Some(Language::Danish)
    } else if given == "arabic".to_owned() {
        Some(Language::Arabic)
    } else if given == "dutch".to_owned() {
        Some(Language::Dutch)
    } else if given == "finnish".to_owned() {
        Some(Language::Finnish)
    } else if given == "french".to_owned() {
        Some(Language::French)
    } else if given == "german".to_owned() {
        Some(Language::German)
    } else if given == "greek".to_owned() {
        Some(Language::Greek)
    } else if given == "hungarian".to_owned() {
        Some(Language::Hungarian)
    } else if given == "italian".to_owned() {
        Some(Language::Italian)
    } else if given == "norwegian".to_owned() {
        Some(Language::Norwegian)
    } else if given == "portuguese".to_owned() {
        Some(Language::Portuguese)
    } else if given == "romanian".to_owned() {
        Some(Language::Romanian)
    } else if given == "russian".to_owned() {
        Some(Language::Russian)
    } else if given == "spanish".to_owned() {
        Some(Language::Spanish)
    } else if given == "swedish".to_owned() {
        Some(Language::Swedish)
    } else if given == "tamil".to_owned() {
        Some(Language::Tamil)
    } else if given == "turkish".to_owned() {
        Some(Language::Turkish)
    } else {
        None
    }
}

} // verus!
