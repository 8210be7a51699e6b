use crate::index::CellIndex;
use crate::text::push_char;
use vstd::prelude::*;
use vstd::string::StrSliceExecFns;
use vstd::string::StringExecFns;

verus! {

/// An emoji: one character, optionally followed by a second (a variation
/// selector or the second half of a flag).
#[derive(Clone, Copy, Debug, PartialEq, Eq, Structural, Hash, PartialOrd, Ord)]
pub struct EmojiCode(pub char, pub Option<char>);

/// What a label of a cell shows.
#[derive(Clone, Debug)]
pub enum CellElement {
    Text(String),
    Emoji(EmojiCode),
}

/// A point of interest on a cell.
#[derive(Clone, Copy, Debug, PartialEq, Eq, Structural, Hash)]
pub enum PoI {
    Campfire,
    Fountain,
    Forum,
}

impl EmojiCode {
    pub open spec fn spec_text(self) -> Seq<char> {
        match self.1 {
            Some(c1) => seq![self.0, c1],
            None => seq![self.0],
        }
    }

    pub fn from_char(c0: char) -> (r: EmojiCode)
        ensures
            r == EmojiCode(c0, None),
    {
        EmojiCode(c0, None)
    }

    pub fn from_pair(c0: char, c1: char) -> (r: EmojiCode)
        ensures
            r == EmojiCode(c0, Some(c1)),
    {
        EmojiCode(c0, Some(c1))
    }

    /// The emoji's characters.
    pub fn to_string(&self) -> (r: String)
        ensures
            r@ == self.spec_text(),
    {
        let mut s = String::new();
        push_char(&mut s, self.0);
        if let Some(c1) = self.1 {
            push_char(&mut s, c1);
        }
        assert(s@ =~= self.spec_text());
        s
    }
}

impl CellElement {
    /// The label's text.
    pub open spec fn spec_text(self) -> Seq<char> {
        match self {
            CellElement::Text(t) => t@,
            CellElement::Emoji(e) => e.spec_text(),
        }
    }

    /// A label read from `s`: nothing when empty, an emoji when one or two
    /// characters long, text otherwise.
    pub fn from_text(s: &str) -> (r: Option<CellElement>)
        ensures
            s@.len() == 0 <==> r is None,
            r matches Some(e) ==> e.spec_text() == s@,
            r matches Some(e) ==> (e is Emoji <==> s@.len() <= 2),
    {
        let n = s.unicode_len();
        if n == 0 {
            None
        } else if n == 1 {
            let r = CellElement::Emoji(EmojiCode(s.get_char(0), None));
            assert(r.spec_text() =~= s@);
            Some(r)
        } else if n == 2 {
            let r = CellElement::Emoji(EmojiCode(s.get_char(0), Some(s.get_char(1))));
            assert(r.spec_text() =~= s@);
            Some(r)
        } else {
            Some(CellElement::Text(String::from_str(s)))
        }
    }

    pub fn to_string(&self) -> (r: String)
        ensures
            r@ == self.spec_text(),
    {
        match self {
            CellElement::Text(t) => t.clone(),
            CellElement::Emoji(e) => e.to_string(),
        }
    }
}

pub open spec fn spec_cell_parts(center: Option<CellElement>) -> Option<PoI> {
    match center {
        Some(CellElement::Emoji(EmojiCode(c0, c1))) => if c0 == '\u{1f525}' && c1 is None {
            Some(PoI::Campfire)
        } else if c0 == '\u{26f2}' && (c1 is None || c1 == Some('\u{fe0f}')) {
            Some(PoI::Fountain)
        } else if c0 == '\u{1f3db}' && (c1 is None || c1 == Some('\u{fe0f}')) {
            Some(PoI::Forum)
        } else {
            None
        },
        _ => None,
    }
}

/// The point of interest that a cell's central emoji marks: fire for a
/// campfire, a fountain, or a classical building for the forum.
pub fn cell_parts(center: &Option<CellElement>) -> (r: Option<PoI>)
    ensures
        r == spec_cell_parts(*center),
{
    match center {
        Some(CellElement::Emoji(EmojiCode(c0, c1))) => {
            let c0 = *c0;
            let c1 = *c1;
            if c0 == '\u{1f525}' && c1.is_none() {
                Some(PoI::Campfire)
            } else if c0 == '\u{26f2}' && (c1.is_none() || c1 == Some('\u{fe0f}')) {
                Some(PoI::Fountain)
            } else if c0 == '\u{1f3db}' && (c1.is_none() || c1 == Some('\u{fe0f}')) {
                Some(PoI::Forum)
            } else {
                None
            }
        },
        _ => None,
    }
}

} // verus!
