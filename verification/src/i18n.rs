//! The current interface language.

use vstd::prelude::*;

verus! {

/// The language that the interface is shown in.
#[derive(Debug, Clone)]
pub struct Locale {
    pub language: String,
}

impl Locale {
    /// English, the language the interface starts in.
    pub fn new() -> (l: Locale)
        ensures
            l.language@ == "en"@,
    {
        Locale { language: String::from_str("en") }
    }

    /// Switches the interface to `lang` (for example `"en"` or `"de"`).
    pub fn set_language(&mut self, lang: &str)
        ensures
            final(self).language@ == lang@,
    {
        self.language = String::from_str(lang);
    }
}

/// The current language code.
pub fn get_language(locale: &Locale) -> (s: String)
    ensures
        s@ == locale.language@,
{
    locale.language.clone()
}

} // verus!
