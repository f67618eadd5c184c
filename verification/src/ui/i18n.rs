//! Lightweight internationalization for the Settings UI: every string has an
//! English and a Russian variant, picked by `Language::t`.

use crate::text::{lemma_trim_of_trimmed, to_lowercase, trim, trim_ws, unicode_lowercase};
use vstd::prelude::*;
use vstd::string::*;

verus! {

/// UI language. English is the default; Russian is opt-in.
#[derive(Debug, Clone, Copy, PartialEq, Eq, Structural)]
pub enum Language {
    English,
    Russian,
}

impl Default for Language {
    fn default() -> (r: Self)
        ensures
            r == Language::English,
    {
        Language::English
    }
}

/// The persisted code of a language.
pub open spec fn language_code(l: Language) -> Seq<char> {
    match l {
        Language::English => "en"@,
        Language::Russian => "ru"@,
    }
}

/// The language a persisted code selects: Russian for `ru` (ignoring case and
/// surrounding whitespace), English for anything else.
pub open spec fn language_for_code(code: Seq<char>) -> Language {
    if unicode_lowercase(trim_ws(code)) == "ru"@ {
        Language::Russian
    } else {
        Language::English
    }
}

impl Language {
    /// Pick the English or Russian variant of a string based on this language.
    pub fn t<'a>(&self, en: &'a str, ru: &'a str) -> (r: &'a str)
        ensures
            r == (match *self {
                Language::English => en,
                Language::Russian => ru,
            }),
    {
        match self {
            Language::English => en,
            Language::Russian => ru,
        }
    }

    /// Short code used for persistence (`en` / `ru`).
    pub fn code(&self) -> (r: &'static str)
        ensures
            r@ == language_code(*self),
    {
        match self {
            Language::English => "en",
            Language::Russian => "ru",
        }
    }

    /// The language a persisted code selects (anything but `ru` is English).
    pub fn from_code(code: &str) -> (r: Language)
        ensures
            r == language_for_code(code@),
    {
        let trimmed = trim(code);
        let lower = to_lowercase(trimmed.as_str());
        let ru = String::from_str("ru");
        if lower == ru {
            Language::Russian
        } else {
            Language::English
        }
    }
}

/// A saved language reads back as itself: the code a language is
/// persisted under selects that language again.
pub proof fn lemma_language_code_round_trip(l: Language)
    ensures
        language_for_code(language_code(l)) == l,
{
    reveal_strlit("en");
    reveal_strlit("ru");
    let code = language_code(l);
    lemma_trim_of_trimmed(code);
    assert(trim_ws(code) == code);
    assert(unicode_lowercase(code) =~= code);
    if l == Language::English {
        assert(code[0] == 'e');
        assert("ru"@[0] == 'r');
    }
}

} // verus!
