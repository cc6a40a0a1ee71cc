//! The reader's settings: interface language, default translation and theme,
//! and how they are stored as text and read back.
use crate::text::{str_eq, owned};
use vstd::prelude::*;

verus! {

/// The languages of the interface.
#[derive(PartialEq, Eq, Structural, Clone, Copy, Debug)]
pub enum Language {
    English,
    German,
}

/// The code under which a language is stored.
pub open spec fn language_code(l: Language) -> Seq<char> {
    match l {
        Language::English => "en"@,
        Language::German => "de"@,
    }
}

/// The language that a stored code names; any code but German's means English.
pub open spec fn language_of_code(code: Seq<char>) -> Language {
    if code == "de"@ {
        Language::German
    } else {
        Language::English
    }
}

impl Language {
    /// The code under which this language is stored.
    pub fn code(&self) -> (r: &'static str)
        ensures
            r@ == language_code(*self),
    {
        match self {
            Language::English => "en",
            Language::German => "de",
        }
    }

    /// The language that a stored code names.
    pub fn from_code(code: &str) -> (r: Language)
        ensures
            r == language_of_code(code@),
    {
        if str_eq(code, "de") {
            Language::German
        } else {
            Language::English
        }
    }

    /// The language's name in itself, as the language menu shows it.
    pub fn name(&self) -> (r: &'static str)
        ensures
            r@ == match *self {
                Language::English => "English"@,
                Language::German => "Deutsch"@,
            },
    {
        match self {
            Language::English => "English",
            Language::German => "Deutsch",
        }
    }
}

/// Law: reading back the code of a language gives the language.
pub proof fn lemma_language_code_round_trip(l: Language)
    ensures
        language_of_code(language_code(l)) == l,
{
    reveal_strlit("en");
    reveal_strlit("de");
    assert("en"@ != "de"@) by {
        assert("en"@[0] != "de"@[0]);
    }
}

/// The reader's settings.
#[derive(Debug, Clone)]
pub struct Settings {
    pub language: Language,
    pub default_translation: String,
    pub dark_mode: bool,
}

/// The view of [`Settings`].
pub struct SettingsView {
    pub language: Language,
    pub default_translation: Seq<char>,
    pub dark_mode: bool,
}

impl View for Settings {
    type V = SettingsView;

    open spec fn view(&self) -> SettingsView {
        SettingsView {
            language: self.language,
            default_translation: self.default_translation@,
            dark_mode: self.dark_mode,
        }
    }
}

/// The settings before anything is stored: English, the King James
/// translation, dark theme.
pub open spec fn default_settings() -> SettingsView {
    SettingsView { language: Language::English, default_translation: "kjv"@, dark_mode: true }
}

impl Default for Settings {
    fn default() -> (s: Self)
        ensures
            s@ == default_settings(),
    {
        Settings { language: Language::English, default_translation: owned("kjv"), dark_mode: true }
    }
}

/// How the theme is stored.
pub open spec fn dark_mode_text(dark: bool) -> Seq<char> {
    if dark {
        "true"@
    } else {
        "false"@
    }
}

/// The settings made of the stored values, each absent one keeping its
/// default; the theme is dark exactly when its stored value is `true`.
pub open spec fn settings_from_stored(
    language: Option<Seq<char>>,
    translation: Option<Seq<char>>,
    dark_mode: Option<Seq<char>>,
) -> SettingsView {
    SettingsView {
        language: match language {
            Some(code) => language_of_code(code),
            None => default_settings().language,
        },
        default_translation: match translation {
            Some(t) => t,
            None => default_settings().default_translation,
        },
        dark_mode: match dark_mode {
            Some(d) => d == "true"@,
            None => default_settings().dark_mode,
        },
    }
}

/// The view of an optional stored value.
pub open spec fn opt_view(s: Option<String>) -> Option<Seq<char>> {
    match s {
        Some(t) => Some(t@),
        None => None,
    }
}

impl Settings {
    /// The settings made of the stored values (absent values keep their
    /// defaults).
    pub fn from_stored(
        language: Option<String>,
        translation: Option<String>,
        dark_mode: Option<String>,
    ) -> (s: Settings)
        ensures
            s@ == settings_from_stored(opt_view(language), opt_view(translation), opt_view(dark_mode)),
    {
        let mut s = Settings::default();
        if let Some(code) = language {
            s.language = Language::from_code(code.as_str());
        }
        if let Some(t) = translation {
            s.default_translation = t;
        }
        if let Some(d) = dark_mode {
            s.dark_mode = str_eq(d.as_str(), "true");
        }
        s
    }

    /// How the theme of these settings is stored.
    pub fn dark_mode_value(&self) -> (r: &'static str)
        ensures
            r@ == dark_mode_text(self.dark_mode),
    {
        if self.dark_mode {
            "true"
        } else {
            "false"
        }
    }
}

/// Law: settings stored and read back are the same settings.
pub proof fn lemma_settings_round_trip(s: SettingsView)
    ensures
        settings_from_stored(
            Some(language_code(s.language)),
            Some(s.default_translation),
            Some(dark_mode_text(s.dark_mode)),
        ) == s,
{
    lemma_language_code_round_trip(s.language);
    reveal_strlit("true");
    reveal_strlit("false");
    assert("false"@ != "true"@) by {
        assert("false"@.len() != "true"@.len());
    }
}

} // verus!
