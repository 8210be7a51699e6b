use crate::cell::EmojiCode;
use crate::index::{Border, BorderDirection};
use vstd::string::StrSliceExecFns;
use vstd::prelude::*;

verus! {

/// One of the four quadrants of the map, in their cyclic order.
#[derive(Clone, Copy, Debug, PartialEq, Eq, Structural, Hash, PartialOrd, Ord)]
pub enum Homeland {
    Blue,
    Red,
    Green,
    Yellow,
}

impl Homeland {
    /// Position of the homeland in the cycle Blue, Red, Green, Yellow.
    pub open spec fn ord(self) -> nat {
        match self {
            Homeland::Blue => 0,
            Homeland::Red => 1,
            Homeland::Green => 2,
            Homeland::Yellow => 3,
        }
    }

    pub open spec fn from_ord(i: nat) -> Homeland {
        if i % 4 == 0 {
            Homeland::Blue
        } else if i % 4 == 1 {
            Homeland::Red
        } else if i % 4 == 2 {
            Homeland::Green
        } else {
            Homeland::Yellow
        }
    }

    pub open spec fn spec_abbrev(self) -> char {
        match self {
            Homeland::Blue => 'B',
            Homeland::Red => 'R',
            Homeland::Green => 'G',
            Homeland::Yellow => 'Y',
        }
    }

    pub open spec fn spec_name(self) -> Seq<char> {
        match self {
            Homeland::Blue => seq!['B', 'l', 'u', 'e'],
            Homeland::Red => seq!['R', 'e', 'd'],
            Homeland::Green => seq!['G', 'r', 'e', 'e', 'n'],
            Homeland::Yellow => seq!['Y', 'e', 'l', 'l', 'o', 'w'],
        }
    }

    /// The homeland two steps around the cycle.
    pub open spec fn spec_farland(self) -> Homeland {
        Homeland::from_ord(self.ord() + 2)
    }

    /// The border that this homeland touches in the given direction.
    pub open spec fn spec_neighbour(self, d: BorderDirection) -> Border {
        match (self, d) {
            (Homeland::Blue, BorderDirection::Horizontal) => Border::BR,
            (Homeland::Red, BorderDirection::Horizontal) => Border::BR,
            (Homeland::Green, BorderDirection::Horizontal) => Border::GY,
            (Homeland::Yellow, BorderDirection::Horizontal) => Border::GY,
            (Homeland::Blue, BorderDirection::Vertical) => Border::YB,
            (Homeland::Yellow, BorderDirection::Vertical) => Border::YB,
            (Homeland::Red, BorderDirection::Vertical) => Border::RG,
            (Homeland::Green, BorderDirection::Vertical) => Border::RG,
        }
    }

    /// The variant's name.
    pub fn name(&self) -> (r: &'static str)
        ensures
            r@ == self.spec_name(),
    {
        let r = match self {
            Homeland::Blue => "Blue",
            Homeland::Red => "Red",
            Homeland::Green => "Green",
            Homeland::Yellow => "Yellow",
        };
        proof {
            reveal_strlit("Blue");
            reveal_strlit("Red");
            reveal_strlit("Green");
            reveal_strlit("Yellow");
        }
        r
    }

    pub fn as_abbrev(&self) -> (r: char)
        ensures
            r == self.spec_abbrev(),
    {
        match self {
            Homeland::Blue => 'B',
            Homeland::Red => 'R',
            Homeland::Green => 'G',
            Homeland::Yellow => 'Y',
        }
    }

    pub fn as_abbrev_low(&self) -> (r: char)
        ensures
            r as u32 == self.spec_abbrev() as u32 + 32,
    {
        match self {
            Homeland::Blue => 'b',
            Homeland::Red => 'r',
            Homeland::Green => 'g',
            Homeland::Yellow => 'y',
        }
    }

    /// The two homelands next to this one in the cycle: the previous one, then the next one.
    pub fn neighbours(&self) -> (r: [Homeland; 2])
        ensures
            r@ == seq![Homeland::from_ord(self.ord() + 3), Homeland::from_ord(self.ord() + 1)],
    {
        match self {
            Homeland::Blue => [Homeland::Yellow, Homeland::Red],
            Homeland::Red => [Homeland::Blue, Homeland::Green],
            Homeland::Green => [Homeland::Red, Homeland::Yellow],
            Homeland::Yellow => [Homeland::Green, Homeland::Blue],
        }
    }

    pub fn neighbour(&self, border_direction: BorderDirection) -> (r: Border)
        ensures
            r == self.spec_neighbour(border_direction),
    {
        match (self, border_direction) {
            (Homeland::Blue, BorderDirection::Horizontal) => Border::BR,
            (Homeland::Blue, BorderDirection::Vertical) => Border::YB,
            (Homeland::Red, BorderDirection::Horizontal) => Border::BR,
            (Homeland::Red, BorderDirection::Vertical) => Border::RG,
            (Homeland::Green, BorderDirection::Horizontal) => Border::GY,
            (Homeland::Green, BorderDirection::Vertical) => Border::RG,
            (Homeland::Yellow, BorderDirection::Horizontal) => Border::GY,
            (Homeland::Yellow, BorderDirection::Vertical) => Border::YB,
        }
    }

    pub fn farland(&self) -> (r: Homeland)
        ensures
            r == self.spec_farland(),
            r != *self,
    {
        match self {
            Homeland::Blue => Homeland::Green,
            Homeland::Red => Homeland::Yellow,
            Homeland::Green => Homeland::Blue,
            Homeland::Yellow => Homeland::Red,
        }
    }

    /// Number of homelands.
    pub fn count() -> (r: usize)
        ensures
            r == 4,
    {
        4
    }

    /// Position in the cycle, usable as an array index.
    pub fn index(&self) -> (r: usize)
        ensures
            r == self.ord(),
    {
        match self {
            Homeland::Blue => 0,
            Homeland::Red => 1,
            Homeland::Green => 2,
            Homeland::Yellow => 3,
        }
    }

    /// All homelands in cycle order.
    pub fn all() -> (r: [Homeland; 4])
        ensures
            forall|i: int| 0 <= i < 4 ==> #[trigger] r@[i] == Homeland::from_ord(i as nat),
            r@.len() == 4,
    {
        [Homeland::Blue, Homeland::Red, Homeland::Green, Homeland::Yellow]
    }

    /// The homeland whose abbreviation is `ch`.
    pub fn from_abbrev(ch: char) -> (r: Option<Homeland>)
        ensures
            r matches Some(h) ==> h.spec_abbrev() == ch,
            r is None ==> forall|h: Homeland| h.spec_abbrev() != ch,
    {
        match ch {
            'B' => Some(Homeland::Blue),
            'R' => Some(Homeland::Red),
            'G' => Some(Homeland::Green),
            'Y' => Some(Homeland::Yellow),
            _ => None,
        }
    }

    /// The homeland's flag.
    pub open spec fn spec_emoji(self) -> EmojiCode {
        match self {
            Homeland::Blue => EmojiCode('\u{1f1ea}', Some('\u{1f1fa}')),
            Homeland::Red => EmojiCode('\u{1f1ee}', Some('\u{1f1f2}')),
            Homeland::Green => EmojiCode('\u{1f1f2}', Some('\u{1f1f4}')),
            Homeland::Yellow => EmojiCode('\u{1f1fb}', Some('\u{1f1e6}')),
        }
    }

    pub fn emoji(&self) -> (r: EmojiCode)
        ensures
            r == self.spec_emoji(),
    {
        match self {
            Homeland::Blue => EmojiCode('\u{1f1ea}', Some('\u{1f1fa}')),
            Homeland::Red => EmojiCode('\u{1f1ee}', Some('\u{1f1f2}')),
            Homeland::Green => EmojiCode('\u{1f1f2}', Some('\u{1f1f4}')),
            Homeland::Yellow => EmojiCode('\u{1f1fb}', Some('\u{1f1e6}')),
        }
    }

    /// The homeland whose flag is `e`.
    pub fn from_emoji(e: EmojiCode) -> (r: Option<Homeland>)
        ensures
            r matches Some(h) ==> h.spec_emoji() == e,
            r is None ==> forall|h: Homeland| h.spec_emoji() != e,
    {
        let blue = Homeland::Blue.emoji();
        let red = Homeland::Red.emoji();
        let green = Homeland::Green.emoji();
        let yellow = Homeland::Yellow.emoji();
        if e == blue {
            Some(Homeland::Blue)
        } else if e == red {
            Some(Homeland::Red)
        } else if e == green {
            Some(Homeland::Green)
        } else if e == yellow {
            Some(Homeland::Yellow)
        } else {
            None
        }
    }

    /// The homeland whose abbreviation is the whole of `s`.
    pub fn parse(s: &str) -> (r: Option<Homeland>)
        ensures
            r matches Some(h) ==> s@ == seq![h.spec_abbrev()],
            r is None ==> forall|h: Homeland| s@ != seq![h.spec_abbrev()],
    {
        if s.unicode_len() != 1 {
            return None;
        }
        let c = s.get_char(0);
        assert(s@ =~= seq![c]);
        Homeland::from_abbrev(c)
    }

    /// The border in direction `d` and the homeland across it.
    pub fn neighbour_border(&self, d: BorderDirection) -> (r: (Border, Homeland))
        ensures
            r.0 == self.spec_neighbour(d),
            r.1 != *self,
            r.0.spec_neighbours() == (*self, r.1) || r.0.spec_neighbours() == (r.1, *self),
    {
        let b = self.neighbour(d);
        let n = b.neighbours();
        if n[0] == *self {
            (b, n[1])
        } else {
            (b, n[0])
        }
    }
}

} // verus!
