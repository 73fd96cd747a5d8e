//! Which voice reads a language aloud.

use vstd::prelude::*;
use crate::text::str_eq;

verus! {

/// A voice of the speech service.
#[derive(Debug, Clone, Copy, PartialEq, Eq, Structural)]
pub enum Voice {
    Matthew,
    Enrique,
    Mathieu,
    Hans,
}

/// The voice for a language, given by code or by English name.
pub open spec fn voice_of(language: Seq<char>) -> Option<Voice> {
    if language == "en"@ || language == "English"@ {
        Some(Voice::Matthew)
    } else if language == "es"@ || language == "Spanish"@ {
        Some(Voice::Enrique)
    } else if language == "fr"@ || language == "French"@ {
        Some(Voice::Mathieu)
    } else if language == "de"@ || language == "German"@ {
        Some(Voice::Hans)
    } else {
        None
    }
}

/// Picks the voice for a language; none for a language without one.
pub fn voice_for(language: &str) -> (r: Option<Voice>)
    ensures
        r == voice_of(language@),
{
    if str_eq(language, "en") || str_eq(language, "English") {
        Some(Voice::Matthew)
    } else if str_eq(language, "es") || str_eq(language, "Spanish") {
        Some(Voice::Enrique)
    } else if str_eq(language, "fr") || str_eq(language, "French") {
        Some(Voice::Mathieu)
    } else if str_eq(language, "de") || str_eq(language, "German") {
        Some(Voice::Hans)
    } else {
        None
    }
}

} // verus!
