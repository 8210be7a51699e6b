use vstd::prelude::*;

verus! {

/// A language of the interface.
#[derive(Clone, Copy, Debug, PartialEq, Eq, Structural)]
pub enum Translation {
    En,
    Es,
    Ru,
}

impl Translation {
    pub open spec fn spec_locale(self) -> Seq<char> {
        match self {
            Translation::En => seq!['e', 'n'],
            Translation::Es => seq!['e', 's'],
            Translation::Ru => seq!['r', 'u'],
        }
    }

    /// The language's own name for itself.
    pub fn name(self) -> (r: &'static str)
        ensures
            self == Translation::En ==> r@ == seq!['E', 'n', 'g', 'l', 'i', 's', 'h'],
            self == Translation::Es ==> r@ == seq!['E', 's', 'p', 'a', '\u{f1}', 'o', 'l'],
            self == Translation::Ru ==> r@ == seq![
                '\u{420}',
                '\u{443}',
                '\u{441}',
                '\u{441}',
                '\u{43a}',
                '\u{438}',
                '\u{439}',
            ],
    {
        proof {
            reveal_strlit("English");
            reveal_strlit("Espa\u{f1}ol");
            reveal_strlit("\u{420}\u{443}\u{441}\u{441}\u{43a}\u{438}\u{439}");
        }
        match self {
            Translation::En => "English",
            Translation::Es => "Espa\u{f1}ol",
            Translation::Ru => "\u{420}\u{443}\u{441}\u{441}\u{43a}\u{438}\u{439}",
        }
    }

    /// The locale code.
    pub fn to_locale_name(self) -> (r: &'static str)
        ensures
            r@ == self.spec_locale(),
    {
        proof {
            reveal_strlit("en");
            reveal_strlit("es");
            reveal_strlit("ru");
        }
        match self {
            Translation::En => "en",
            Translation::Es => "es",
            Translation::Ru => "ru",
        }
    }

    /// The default language.
    pub fn default_translation() -> (r: Translation)
        ensures
            r == Translation::En,
    {
        Translation::En
    }
}

} // verus!
