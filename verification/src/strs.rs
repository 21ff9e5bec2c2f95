//! Localized chrome strings (subtitle and footer), keyed on the language
//! detected in the prompt. Only Thai and English are shipped; anything else
//! falls back to English.

use vstd::prelude::*;

verus! {

/// Supported languages.
#[derive(Debug, Clone, Copy, PartialEq, Eq, Structural)]
pub enum Lang {
    En,
    Th,
}

/// A character of the Thai Unicode block (U+0E00..=U+0E7F).
pub open spec fn is_thai_char(c: char) -> bool {
    0x0E00 <= (c as u32) && (c as u32) <= 0x0E7F
}

/// The language of a text: Thai when any character is in the Thai block,
/// English otherwise.
pub open spec fn lang_of(text: Seq<char>) -> Lang {
    if exists|i: int| 0 <= i < text.len() && is_thai_char(#[trigger] text[i]) {
        Lang::Th
    } else {
        Lang::En
    }
}

/// Detect the language of `text`: Thai characters give Thai, else English.
pub fn detect_lang(text: &str) -> (l: Lang)
    ensures
        l == lang_of(text@),
{
    for c in it: text.chars()
        invariant
            it.seq() == text@,
            forall|k: int| 0 <= k < it.index() ==> !is_thai_char(#[trigger] text@[k]),
    {
        let u = c as u32;
        if 0x0E00 <= u && u <= 0x0E7F {
            assert(is_thai_char(text@[it.index() as int]));
            return Lang::Th;
        }
    }
    Lang::En
}

/// The subtitle text for a language.
pub open spec fn subtitle_text(lang: Lang) -> Seq<char> {
    match lang {
        Lang::En => "Generated via katSVG Neuro-Symbolic Vector Layout Engine"@,
        Lang::Th => "สร้างโดย katSVG Neuro-Symbolic Vector Layout Engine"@,
    }
}

/// The footer text for a language.
pub open spec fn footer_text(lang: Lang) -> Seq<char> {
    match lang {
        Lang::En => "katSVG Engine • MIT License"@,
        Lang::Th => "katSVG Engine • สัญญาอนุญาต MIT"@,
    }
}

/// A small keyed string table.
pub struct Strs;

impl Strs {
    /// Subtitle shown under the title.
    pub fn subtitle(lang: Lang) -> (s: &'static str)
        ensures
            s@ == subtitle_text(lang),
    {
        match lang {
            Lang::En => "Generated via katSVG Neuro-Symbolic Vector Layout Engine",
            Lang::Th => "สร้างโดย katSVG Neuro-Symbolic Vector Layout Engine",
        }
    }

    /// Footer note.
    pub fn footer(lang: Lang) -> (s: &'static str)
        ensures
            s@ == footer_text(lang),
    {
        match lang {
            Lang::En => "katSVG Engine • MIT License",
            Lang::Th => "katSVG Engine • สัญญาอนุญาต MIT",
        }
    }
}

} // verus!
