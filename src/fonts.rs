use vstd::prelude::*;

verus! {

/// A font bundled with the interface.
#[derive(Clone, Copy, Debug, PartialEq, Eq, Structural)]
pub enum Font {
    Hack,
    UbuntuLight,
    NotoEmojiRegular,
    EmojiIconFont,
}

impl Font {
    pub open spec fn spec_name(self) -> Seq<char> {
        match self {
            Font::Hack => seq!['H', 'a', 'c', 'k'],
            Font::UbuntuLight | Font::NotoEmojiRegular => seq![
                'N',
                'o',
                't',
                'o',
                'E',
                'm',
                'o',
                'j',
                'i',
                '-',
                'R',
                'e',
                'g',
                'u',
                'l',
                'a',
                'r',
            ],
            Font::EmojiIconFont => seq![
                'e',
                'm',
                'o',
                'j',
                'i',
                '-',
                'i',
                'c',
                'o',
                'n',
                '-',
                'f',
                'o',
                'n',
                't',
            ],
        }
    }

    /// All fonts, in declaration order.
    pub fn all() -> (r: [Font; 4])
        ensures
            r@ == seq![Font::Hack, Font::UbuntuLight, Font::NotoEmojiRegular, Font::EmojiIconFont],
    {
        [Font::Hack, Font::UbuntuLight, Font::NotoEmojiRegular, Font::EmojiIconFont]
    }

    /// Where the font file lies, relative to the assets.
    pub fn filename(&self) -> (r: &'static str)
        ensures
            *self == Font::Hack ==> r@ == "fonts/Hack-Regular.ttf"@,
            *self == Font::UbuntuLight ==> r@ == "fonts/Ubuntu-Light.ttf"@,
            *self == Font::NotoEmojiRegular ==> r@ == "fonts/NotoEmoji-Regular.ttf"@,
            *self == Font::EmojiIconFont ==> r@ == "fonts/emoji-icon-font.ttf"@,
    {
        match self {
            Font::Hack => "fonts/Hack-Regular.ttf",
            Font::UbuntuLight => "fonts/Ubuntu-Light.ttf",
            Font::NotoEmojiRegular => "fonts/NotoEmoji-Regular.ttf",
            Font::EmojiIconFont => "fonts/emoji-icon-font.ttf",
        }
    }

    /// The name under which the font is registered.
    pub fn name(&self) -> (r: &'static str)
        ensures
            r@ == self.spec_name(),
    {
        proof {
            reveal_strlit("Hack");
            reveal_strlit("NotoEmoji-Regular");
            reveal_strlit("emoji-icon-font");
        }
        match self {
            Font::Hack => "Hack",
            Font::UbuntuLight => "NotoEmoji-Regular",
            Font::NotoEmojiRegular => "NotoEmoji-Regular",
            Font::EmojiIconFont => "emoji-icon-font",
        }
    }

    /// How much the font is scaled, in hundredths; `None` for no change.
    pub fn tweak_scale_percent(&self) -> (r: Option<u32>)
        ensures
            *self == Font::NotoEmojiRegular ==> r == Some(81u32),
            *self == Font::EmojiIconFont ==> r == Some(90u32),
            (*self == Font::Hack || *self == Font::UbuntuLight) ==> r is None,
    {
        match self {
            Font::Hack | Font::UbuntuLight => None,
            Font::NotoEmojiRegular => Some(81),
            Font::EmojiIconFont => Some(90),
        }
    }

    /// Whether the font serves monospace text only (else proportional text too).
    pub fn monospace_only(&self) -> (r: bool)
        ensures
            r == (*self == Font::Hack),
    {
        match self {
            Font::Hack => true,
            _ => false,
        }
    }
}

} // verus!
