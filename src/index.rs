use crate::homeland::Homeland;
use crate::text::{
    dec, digits_value, first_index_of, lemma_dec, lemma_first_index_none, lemma_first_index_of,
    parse_u8, parse_u8_spec, push_char, push_decimal,
};
use vstd::prelude::*;
use vstd::string::StrSliceExecFns;
use vstd::string::StringExecFns;

verus! {

/// One of the four borders, named by the two homelands it separates.
#[derive(Clone, Copy, Debug, PartialEq, Eq, Structural, Hash, PartialOrd, Ord)]
pub enum Border {
    BR,
    RG,
    GY,
    YB,
}

/// How a border's shift maps onto the coordinates of the homelands beside it.
#[derive(Clone, Copy, Debug, PartialEq, Eq, Structural)]
pub enum BorderDirection {
    Horizontal,
    Vertical,
}

/// A position inside a homeland; both coordinates start at 1.
#[derive(Clone, Copy, Debug, PartialEq, Eq, Structural, Hash, PartialOrd, Ord)]
pub struct Pos {
    pub x: u8,
    pub y: u8,
}

/// The identity of one cell of the map.
#[derive(Clone, Copy, Debug, PartialEq, Eq, Structural, Hash, PartialOrd, Ord)]
pub enum CellIndex {
    Center,
    Homeland { homeland: Homeland, pos: Pos },
    Border { border: Border, shift: u8 },
}

/// The kind of a cell, with the homeland or border it lies in.
#[derive(Clone, Copy, Debug, PartialEq, Eq, Structural, Hash, PartialOrd, Ord)]
pub enum CellIndexLiteral {
    Center,
    Blue,
    Red,
    Green,
    Yellow,
    YB,
    BR,
    RG,
    GY,
}

/// A cell description that may still name a homeland position on an axis;
/// `build` turns it into the canonical `CellIndex`.
#[derive(Clone, Copy, Debug, PartialEq, Eq, Structural, Hash, PartialOrd, Ord)]
pub enum CellIndexBuilder {
    Center,
    Homeland { homeland: Homeland, pos: Pos },
    Border { border: Border, shift: u8 },
}

/// A cell written in the form used inside bot commands (`b_3_4`, `br_2`, `0_0`).
#[derive(Clone, Copy, Debug, PartialEq, Eq, Structural)]
pub struct CellIndexCommandSuffix(pub CellIndex);

impl Border {
    pub open spec fn spec_code(self) -> Seq<char> {
        match self {
            Border::BR => seq!['B', 'R'],
            Border::RG => seq!['R', 'G'],
            Border::GY => seq!['G', 'Y'],
            Border::YB => seq!['Y', 'B'],
        }
    }

    pub open spec fn spec_code_low(self) -> Seq<char> {
        match self {
            Border::BR => seq!['b', 'r'],
            Border::RG => seq!['r', 'g'],
            Border::GY => seq!['g', 'y'],
            Border::YB => seq!['y', 'b'],
        }
    }

    /// The border whose code is `s`.
    pub open spec fn spec_from_code(s: Seq<char>) -> Option<Border> {
        if s == Border::BR.spec_code() {
            Some(Border::BR)
        } else if s == Border::RG.spec_code() {
            Some(Border::RG)
        } else if s == Border::GY.spec_code() {
            Some(Border::GY)
        } else if s == Border::YB.spec_code() {
            Some(Border::YB)
        } else {
            None
        }
    }

    pub open spec fn spec_neighbours(self) -> (Homeland, Homeland) {
        match self {
            Border::BR => (Homeland::Blue, Homeland::Red),
            Border::RG => (Homeland::Red, Homeland::Green),
            Border::GY => (Homeland::Green, Homeland::Yellow),
            Border::YB => (Homeland::Yellow, Homeland::Blue),
        }
    }

    pub open spec fn spec_direction(self) -> BorderDirection {
        match self {
            Border::BR | Border::GY => BorderDirection::Horizontal,
            Border::RG | Border::YB => BorderDirection::Vertical,
        }
    }

    pub open spec fn ord(self) -> nat {
        match self {
            Border::BR => 0,
            Border::RG => 1,
            Border::GY => 2,
            Border::YB => 3,
        }
    }

    pub fn as_str(&self) -> (r: &'static str)
        ensures
            r@ == self.spec_code(),
    {
        proof {
            reveal_strlit("BR");
            reveal_strlit("RG");
            reveal_strlit("GY");
            reveal_strlit("YB");
        }
        match self {
            Border::BR => "BR",
            Border::RG => "RG",
            Border::GY => "GY",
            Border::YB => "YB",
        }
    }

    pub fn as_str_low(&self) -> (r: &'static str)
        ensures
            r@ == self.spec_code_low(),
    {
        proof {
            reveal_strlit("br");
            reveal_strlit("rg");
            reveal_strlit("gy");
            reveal_strlit("yb");
        }
        match self {
            Border::BR => "br",
            Border::RG => "rg",
            Border::GY => "gy",
            Border::YB => "yb",
        }
    }

    /// The two homelands that the border separates.
    pub fn neighbours(&self) -> (r: [Homeland; 2])
        ensures
            r@ == seq![self.spec_neighbours().0, self.spec_neighbours().1],
    {
        match self {
            Border::BR => [Homeland::Blue, Homeland::Red],
            Border::RG => [Homeland::Red, Homeland::Green],
            Border::GY => [Homeland::Green, Homeland::Yellow],
            Border::YB => [Homeland::Yellow, Homeland::Blue],
        }
    }

    pub fn direction(&self) -> (r: BorderDirection)
        ensures
            r == self.spec_direction(),
    {
        match self {
            Border::BR | Border::GY => BorderDirection::Horizontal,
            Border::RG | Border::YB => BorderDirection::Vertical,
        }
    }

    /// All borders, in declaration order.
    pub fn all() -> (r: [Border; 4])
        ensures
            r@ == seq![Border::BR, Border::RG, Border::GY, Border::YB],
    {
        [Border::BR, Border::RG, Border::GY, Border::YB]
    }

    /// The border whose code is `s` (`"BR"`, `"RG"`, `"GY"` or `"YB"`).
    pub fn parse(s: &str) -> (r: Option<Border>)
        ensures
            r == Border::spec_from_code(s@),
    {
        if s.unicode_len() != 2 {
            return None;
        }
        let a = s.get_char(0);
        let b = s.get_char(1);
        assert(s@ =~= seq![a, b]);
        if a == 'B' && b == 'R' {
            Some(Border::BR)
        } else if a == 'R' && b == 'G' {
            Some(Border::RG)
        } else if a == 'G' && b == 'Y' {
            Some(Border::GY)
        } else if a == 'Y' && b == 'B' {
            Some(Border::YB)
        } else {
            None
        }
    }
}

impl BorderDirection {
    pub open spec fn spec_adjacent_pos(self, i: u8) -> Pos {
        match self {
            BorderDirection::Horizontal => Pos { x: i, y: 1 },
            BorderDirection::Vertical => Pos { x: 1, y: i },
        }
    }

    /// The position next to shift `i` of a border with this direction, in either
    /// homeland beside it.
    pub fn adjacent_pos_u8(&self, i: u8) -> (r: Pos)
        ensures
            r == self.spec_adjacent_pos(i),
    {
        match self {
            BorderDirection::Horizontal => Pos { x: i, y: 1 },
            BorderDirection::Vertical => Pos { x: 1, y: i },
        }
    }
}

impl Pos {
    pub open spec fn spec_format(self) -> Seq<char> {
        dec(self.x as nat) + seq!['#'] + dec(self.y as nat)
    }

    /// `x#y`, split at the first `#`, each side a `u8`.
    pub open spec fn spec_parse(s: Seq<char>) -> Option<Pos> {
        match first_index_of(s, '#') {
            Some(i) => match (
                parse_u8_spec(s.take(i as int)),
                parse_u8_spec(s.skip(i + 1 as int)),
            ) {
                (Some(x), Some(y)) => Some(Pos { x, y }),
                _ => None,
            },
            None => None,
        }
    }

    pub fn to_string(&self) -> (r: String)
        ensures
            r@ == self.spec_format(),
    {
        let mut s = String::new();
        push_decimal(&mut s, self.x as u64);
        push_char(&mut s, '#');
        push_decimal(&mut s, self.y as u64);
        assert(s@ =~= self.spec_format());
        s
    }

    pub fn parse(s: &str) -> (r: Result<Pos, ()>)
        ensures
            r matches Ok(p) ==> Pos::spec_parse(s@) == Some(p),
            r is Err ==> Pos::spec_parse(s@) is None,
    {
        match find_char(s, '#') {
            None => Err(()),
            Some(i) => {
                let len = s.unicode_len();
                let left = s.substring_char(0, i);
                let right = s.substring_char(i + 1, len);
                assert(left@ =~= s@.take(i as int));
                assert(right@ =~= s@.skip(i + 1));
                match (parse_u8(left), parse_u8(right)) {
                    (Some(x), Some(y)) => Ok(Pos { x, y }),
                    _ => Err(()),
                }
            },
        }
    }
}

/// Index of the first `c` in `s`.
pub fn find_char(s: &str, c: char) -> (r: Option<usize>)
    ensures
        r matches Some(i) ==> first_index_of(s@, c) == Some(i as nat) && i < s@.len(),
        r is None ==> first_index_of(s@, c) is None,
{
    let len = s.unicode_len();
    let mut i: usize = 0;
    while i < len
        invariant
            i <= len,
            len == s@.len(),
            forall|j: int| 0 <= j < i ==> s@[j] != c,
        decreases len - i,
    {
        if s.get_char(i) == c {
            proof {
                lemma_first_index_of(s@, c, i as int);
            }
            return Some(i);
        }
        i = i + 1;
    }
    proof {
        lemma_first_index_none(s@, c);
    }
    None
}

impl CellIndexBuilder {
    /// The canonical cell: a homeland position on an axis is the border cell
    /// (or the center) at that place, and shift 0 of a border is the center.
    pub open spec fn spec_build(self) -> CellIndex {
        match self {
            CellIndexBuilder::Center => CellIndex::Center,
            CellIndexBuilder::Border { border, shift } => if shift == 0 {
                CellIndex::Center
            } else {
                CellIndex::Border { border, shift }
            },
            CellIndexBuilder::Homeland { homeland, pos } => if pos.x == 0 && pos.y == 0 {
                CellIndex::Center
            } else if pos.x == 0 {
                CellIndex::Border {
                    border: homeland.spec_neighbour(BorderDirection::Vertical),
                    shift: pos.y,
                }
            } else if pos.y == 0 {
                CellIndex::Border {
                    border: homeland.spec_neighbour(BorderDirection::Horizontal),
                    shift: pos.x,
                }
            } else {
                CellIndex::Homeland { homeland, pos }
            },
        }
    }

    pub open spec fn spec_from(c: CellIndex) -> CellIndexBuilder {
        match c {
            CellIndex::Center => CellIndexBuilder::Center,
            CellIndex::Homeland { homeland, pos } => CellIndexBuilder::Homeland { homeland, pos },
            CellIndex::Border { border, shift } => CellIndexBuilder::Border { border, shift },
        }
    }

    pub open spec fn spec_clamp(self, homeland_size: u8) -> CellIndexBuilder {
        match self {
            CellIndexBuilder::Center => CellIndexBuilder::Center,
            CellIndexBuilder::Homeland { homeland, pos } => CellIndexBuilder::Homeland {
                homeland,
                pos: Pos {
                    x: if pos.x <= homeland_size {
                        pos.x
                    } else {
                        homeland_size
                    },
                    y: if pos.y <= homeland_size {
                        pos.y
                    } else {
                        homeland_size
                    },
                },
            },
            CellIndexBuilder::Border { border, shift } => CellIndexBuilder::Border {
                border,
                shift: if shift <= homeland_size {
                    shift
                } else {
                    homeland_size
                },
            },
        }
    }

    /// Limits every coordinate to `homeland_size`.
    pub fn clamp(self, homeland_size: u8) -> (r: Self)
        ensures
            r == self.spec_clamp(homeland_size),
    {
        match self {
            CellIndexBuilder::Center => CellIndexBuilder::Center,
            CellIndexBuilder::Homeland { homeland, pos } => CellIndexBuilder::Homeland {
                homeland,
                pos: Pos {
                    x: if pos.x <= homeland_size {
                        pos.x
                    } else {
                        homeland_size
                    },
                    y: if pos.y <= homeland_size {
                        pos.y
                    } else {
                        homeland_size
                    },
                },
            },
            CellIndexBuilder::Border { border, shift } => CellIndexBuilder::Border {
                border,
                shift: if shift <= homeland_size {
                    shift
                } else {
                    homeland_size
                },
            },
        }
    }

    pub fn build(self) -> (r: CellIndex)
        ensures
            r == self.spec_build(),
            r.is_canonical(),
    {
        match self {
            CellIndexBuilder::Center => CellIndex::Center,
            CellIndexBuilder::Border { border, shift } => if shift == 0 {
                CellIndex::Center
            } else {
                CellIndex::Border { border, shift }
            },
            CellIndexBuilder::Homeland { homeland, pos } => if pos.x == 0 && pos.y == 0 {
                CellIndex::Center
            } else if pos.x == 0 {
                CellIndex::Border {
                    border: homeland.neighbour(BorderDirection::Vertical),
                    shift: pos.y,
                }
            } else if pos.y == 0 {
                CellIndex::Border {
                    border: homeland.neighbour(BorderDirection::Horizontal),
                    shift: pos.x,
                }
            } else {
                CellIndex::Homeland { homeland, pos }
            },
        }
    }

    pub fn from_cell(c: CellIndex) -> (r: CellIndexBuilder)
        ensures
            r == CellIndexBuilder::spec_from(c),
    {
        match c {
            CellIndex::Center => CellIndexBuilder::Center,
            CellIndex::Homeland { homeland, pos } => CellIndexBuilder::Homeland { homeland, pos },
            CellIndex::Border { border, shift } => CellIndexBuilder::Border { border, shift },
        }
    }
}

impl CellIndexLiteral {
    pub open spec fn spec_of_homeland(h: Homeland) -> CellIndexLiteral {
        match h {
            Homeland::Blue => CellIndexLiteral::Blue,
            Homeland::Red => CellIndexLiteral::Red,
            Homeland::Green => CellIndexLiteral::Green,
            Homeland::Yellow => CellIndexLiteral::Yellow,
        }
    }

    pub open spec fn spec_of_border(b: Border) -> CellIndexLiteral {
        match b {
            Border::BR => CellIndexLiteral::BR,
            Border::RG => CellIndexLiteral::RG,
            Border::GY => CellIndexLiteral::GY,
            Border::YB => CellIndexLiteral::YB,
        }
    }

    pub open spec fn spec_of_cell(c: CellIndex) -> CellIndexLiteral {
        match c {
            CellIndex::Center => CellIndexLiteral::Center,
            CellIndex::Homeland { homeland, .. } => CellIndexLiteral::spec_of_homeland(homeland),
            CellIndex::Border { border, .. } => CellIndexLiteral::spec_of_border(border),
        }
    }

    pub open spec fn spec_text(self) -> Seq<char> {
        match self {
            CellIndexLiteral::Center => seq!['0', '#', '0'],
            CellIndexLiteral::Blue => seq![Homeland::Blue.spec_abbrev()],
            CellIndexLiteral::Red => seq![Homeland::Red.spec_abbrev()],
            CellIndexLiteral::Green => seq![Homeland::Green.spec_abbrev()],
            CellIndexLiteral::Yellow => seq![Homeland::Yellow.spec_abbrev()],
            CellIndexLiteral::YB => Border::YB.spec_code(),
            CellIndexLiteral::BR => Border::BR.spec_code(),
            CellIndexLiteral::RG => Border::RG.spec_code(),
            CellIndexLiteral::GY => Border::GY.spec_code(),
        }
    }

    pub fn from_homeland(h: Homeland) -> (r: CellIndexLiteral)
        ensures
            r == CellIndexLiteral::spec_of_homeland(h),
    {
        match h {
            Homeland::Blue => CellIndexLiteral::Blue,
            Homeland::Red => CellIndexLiteral::Red,
            Homeland::Green => CellIndexLiteral::Green,
            Homeland::Yellow => CellIndexLiteral::Yellow,
        }
    }

    pub fn from_border(b: Border) -> (r: CellIndexLiteral)
        ensures
            r == CellIndexLiteral::spec_of_border(b),
    {
        match b {
            Border::BR => CellIndexLiteral::BR,
            Border::RG => CellIndexLiteral::RG,
            Border::GY => CellIndexLiteral::GY,
            Border::YB => CellIndexLiteral::YB,
        }
    }

    pub fn from_cell(c: CellIndex) -> (r: CellIndexLiteral)
        ensures
            r == CellIndexLiteral::spec_of_cell(c),
    {
        match c {
            CellIndex::Center => CellIndexLiteral::Center,
            CellIndex::Homeland { homeland, .. } => CellIndexLiteral::from_homeland(homeland),
            CellIndex::Border { border, .. } => CellIndexLiteral::from_border(border),
        }
    }

    /// The literal's text: `0#0`, a homeland letter or a border code.
    pub open spec fn spec_homeland(self) -> Option<Homeland> {
        match self {
            CellIndexLiteral::Blue => Some(Homeland::Blue),
            CellIndexLiteral::Red => Some(Homeland::Red),
            CellIndexLiteral::Green => Some(Homeland::Green),
            CellIndexLiteral::Yellow => Some(Homeland::Yellow),
            _ => None,
        }
    }

    pub open spec fn spec_border(self) -> Option<Border> {
        match self {
            CellIndexLiteral::YB => Some(Border::YB),
            CellIndexLiteral::BR => Some(Border::BR),
            CellIndexLiteral::RG => Some(Border::RG),
            CellIndexLiteral::GY => Some(Border::GY),
            _ => None,
        }
    }

    /// The homeland that the literal names, if it names one.
    pub fn homeland(&self) -> (r: Option<Homeland>)
        ensures
            r == self.spec_homeland(),
    {
        match self {
            CellIndexLiteral::Blue => Some(Homeland::Blue),
            CellIndexLiteral::Red => Some(Homeland::Red),
            CellIndexLiteral::Green => Some(Homeland::Green),
            CellIndexLiteral::Yellow => Some(Homeland::Yellow),
            _ => None,
        }
    }

    /// The border that the literal names, if it names one.
    pub fn border(&self) -> (r: Option<Border>)
        ensures
            r == self.spec_border(),
    {
        match self {
            CellIndexLiteral::YB => Some(Border::YB),
            CellIndexLiteral::BR => Some(Border::BR),
            CellIndexLiteral::RG => Some(Border::RG),
            CellIndexLiteral::GY => Some(Border::GY),
            _ => None,
        }
    }

    pub fn as_str(&self) -> (r: &'static str)
        ensures
            r@ == self.spec_text(),
    {
        proof {
            reveal_strlit("0#0");
            reveal_strlit("B");
            reveal_strlit("R");
            reveal_strlit("G");
            reveal_strlit("Y");
            reveal_strlit("YB");
            reveal_strlit("BR");
            reveal_strlit("RG");
            reveal_strlit("GY");
        }
        match self {
            CellIndexLiteral::Center => "0#0",
            CellIndexLiteral::Blue => "B",
            CellIndexLiteral::Red => "R",
            CellIndexLiteral::Green => "G",
            CellIndexLiteral::Yellow => "Y",
            CellIndexLiteral::YB => "YB",
            CellIndexLiteral::BR => "BR",
            CellIndexLiteral::RG => "RG",
            CellIndexLiteral::GY => "GY",
        }
    }
}

impl CellIndex {
    /// No homeland position lies on an axis and no border shift is 0.
    pub open spec fn is_canonical(self) -> bool {
        match self {
            CellIndex::Center => true,
            CellIndex::Homeland { pos, .. } => pos.x >= 1 && pos.y >= 1,
            CellIndex::Border { shift, .. } => shift >= 1,
        }
    }

    pub fn canonical(&self) -> (r: bool)
        ensures
            r == self.is_canonical(),
    {
        match self {
            CellIndex::Center => true,
            CellIndex::Homeland { pos, .. } => pos.x >= 1 && pos.y >= 1,
            CellIndex::Border { shift, .. } => *shift >= 1,
        }
    }

    pub open spec fn spec_format(self) -> Seq<char> {
        match self {
            CellIndex::Center => seq!['0', '#', '0'],
            CellIndex::Homeland { homeland, pos } => seq![homeland.spec_abbrev(), ' ']
                + pos.spec_format(),
            CellIndex::Border { border, shift } => border.spec_code() + seq![' '] + dec(
                shift as nat,
            ),
        }
    }

    pub open spec fn spec_homeland_code(s: Seq<char>) -> Option<Homeland> {
        if s.len() != 1 {
            None
        } else if s[0] == 'B' {
            Some(Homeland::Blue)
        } else if s[0] == 'R' {
            Some(Homeland::Red)
        } else if s[0] == 'G' {
            Some(Homeland::Green)
        } else if s[0] == 'Y' {
            Some(Homeland::Yellow)
        } else {
            None
        }
    }

    pub open spec fn spec_parse_as_homeland(a: Seq<char>, b: Seq<char>) -> Option<CellIndex> {
        match (CellIndex::spec_homeland_code(a), Pos::spec_parse(b)) {
            (Some(homeland), Some(pos)) => Some(
                CellIndexBuilder::Homeland { homeland, pos }.spec_build(),
            ),
            _ => None,
        }
    }

    pub open spec fn spec_parse_as_border(a: Seq<char>, b: Seq<char>) -> Option<CellIndex> {
        match (Border::spec_from_code(a), parse_u8_spec(b)) {
            (Some(border), Some(shift)) => Some(
                CellIndexBuilder::Border { border, shift }.spec_build(),
            ),
            _ => None,
        }
    }

    /// A cell named by its two halves: as a homeland position first, then as a border.
    pub open spec fn spec_parse_parts(a: Seq<char>, b: Seq<char>) -> Option<CellIndex> {
        match CellIndex::spec_parse_as_homeland(a, b) {
            Some(c) => Some(c),
            None => CellIndex::spec_parse_as_border(a, b),
        }
    }

    /// `0#0` is the center; otherwise the text splits at its first space.
    pub open spec fn spec_parse(s: Seq<char>) -> Option<CellIndex> {
        if s == seq!['0', '#', '0'] {
            Some(CellIndex::Center)
        } else {
            match first_index_of(s, ' ') {
                Some(i) => CellIndex::spec_parse_parts(s.take(i as int), s.skip(i + 1 as int)),
                None => None,
            }
        }
    }

    /// The cell that a bottom-right and a top-right label name: both given for
    /// a homeland or border cell, only `0#0` on the right for the center.
    pub open spec fn spec_from_parts(a: Option<Seq<char>>, b: Option<Seq<char>>) -> Option<
        CellIndex,
    > {
        match (a, b) {
            (Some(a), Some(b)) => CellIndex::spec_parse_parts(a, b),
            (None, Some(b)) => if b == seq!['0', '#', '0'] {
                Some(CellIndex::Center)
            } else {
                None
            },
            _ => None,
        }
    }

    pub open spec fn spec_mutate_target(self, to: CellIndexLiteral) -> CellIndexBuilder {
        match to.spec_homeland() {
            Some(homeland) => CellIndexBuilder::Homeland {
                homeland,
                pos: match self {
                    CellIndex::Center => Pos { x: 1, y: 1 },
                    CellIndex::Homeland { pos, .. } => pos,
                    CellIndex::Border { shift, .. } => Pos { x: shift, y: 1 },
                },
            },
            None => match to.spec_border() {
                Some(border) => CellIndexBuilder::Border {
                    border,
                    shift: match self {
                        CellIndex::Center => 1,
                        CellIndex::Homeland { pos, .. } => pos.x,
                        CellIndex::Border { shift, .. } => shift,
                    },
                },
                None => CellIndexBuilder::Center,
            },
        }
    }

    /// Moves the cell into the homeland or border that `to` names, keeping what
    /// it can of the position: a homeland position keeps both coordinates, a
    /// border shift becomes `x`, and the center becomes `(1, 1)` or shift 1.
    pub fn mutate_by_literal(self, to: CellIndexLiteral) -> (r: CellIndex)
        ensures
            r == self.spec_mutate_target(to).spec_build(),
    {
        let target = match to.homeland() {
            Some(homeland) => CellIndexBuilder::Homeland {
                homeland,
                pos: match self {
                    CellIndex::Center => Pos { x: 1, y: 1 },
                    CellIndex::Homeland { pos, .. } => pos,
                    CellIndex::Border { shift, .. } => Pos { x: shift, y: 1 },
                },
            },
            None => match to.border() {
                Some(border) => CellIndexBuilder::Border {
                    border,
                    shift: match self {
                        CellIndex::Center => 1,
                        CellIndex::Homeland { pos, .. } => pos.x,
                        CellIndex::Border { shift, .. } => shift,
                    },
                },
                None => CellIndexBuilder::Center,
            },
        };
        target.build()
    }

    /// The cell's name: `0#0`, `R 3#4` or `BR 2`.
    pub fn to_string(&self) -> (r: String)
        ensures
            r@ == self.spec_format(),
    {
        proof {
            reveal_strlit("0#0");
        }
        match self {
            CellIndex::Center => String::from_str("0#0"),
            CellIndex::Homeland { homeland, pos } => {
                let mut s = String::new();
                push_char(&mut s, homeland.as_abbrev());
                push_char(&mut s, ' ');
                let p = pos.to_string();
                s.append(p.as_str());
                assert(s@ =~= self.spec_format());
                s
            },
            CellIndex::Border { border, shift } => {
                let mut s = String::from_str(border.as_str());
                push_char(&mut s, ' ');
                push_decimal(&mut s, *shift as u64);
                s
            },
        }
    }

    /// Parses a cell name; the inverse of `to_string` on canonical cells.
    pub fn parse(s: &str) -> (r: Result<CellIndex, ()>)
        ensures
            r matches Ok(c) ==> CellIndex::spec_parse(s@) == Some(c),
            r is Err ==> CellIndex::spec_parse(s@) is None,
    {
        let len = s.unicode_len();
        if len == 3 && s.get_char(0) == '0' && s.get_char(1) == '#' && s.get_char(2) == '0' {
            assert(s@ =~= seq!['0', '#', '0']);
            return Ok(CellIndex::Center);
        }
        assert(s@ != seq!['0', '#', '0']);
        match find_char(s, ' ') {
            None => Err(()),
            Some(i) => {
                let left = s.substring_char(0, i);
                let right = s.substring_char(i + 1, len);
                assert(left@ =~= s@.take(i as int));
                assert(right@ =~= s@.skip(i + 1 as int));
                match parse_parts(left, right) {
                    Some(c) => Ok(c),
                    None => Err(()),
                }
            },
        }
    }

    /// The cell that a bottom-right and a top-right label name.
    pub fn from_parts(a: Option<&str>, b: Option<&str>) -> (r: Result<CellIndex, ()>)
        ensures
            r matches Ok(c) ==> CellIndex::spec_from_parts(opt_view(a), opt_view(b)) == Some(c),
            r is Err ==> CellIndex::spec_from_parts(opt_view(a), opt_view(b)) is None,
    {
        match (a, b) {
            (Some(a), Some(b)) => match parse_parts(a, b) {
                Some(c) => Ok(c),
                None => Err(()),
            },
            (None, Some(b)) => {
                if b.unicode_len() == 3 && b.get_char(0) == '0' && b.get_char(1) == '#'
                    && b.get_char(2) == '0' {
                    assert(b@ =~= seq!['0', '#', '0']);
                    Ok(CellIndex::Center)
                } else {
                    assert(b@ != seq!['0', '#', '0']);
                    Err(())
                }
            },
            _ => Err(()),
        }
    }
}

pub open spec fn opt_view(a: Option<&str>) -> Option<Seq<char>> {
    match a {
        Some(x) => Some(x@),
        None => None,
    }
}

fn parse_parts(a: &str, b: &str) -> (r: Option<CellIndex>)
    ensures
        r == CellIndex::spec_parse_parts(a@, b@),
{
    match parse_as_homeland(a, b) {
        Some(c) => Some(c),
        None => parse_as_border(a, b),
    }
}

/// A homeland letter and a position.
pub fn parse_as_homeland(homeland: &str, pos: &str) -> (r: Option<CellIndex>)
    ensures
        r == CellIndex::spec_parse_as_homeland(homeland@, pos@),
{
    let h = if homeland.unicode_len() == 1 {
        Homeland::from_abbrev(homeland.get_char(0))
    } else {
        None
    };
    assert(h == CellIndex::spec_homeland_code(homeland@)) by {
        if homeland@.len() == 1 {
            let c = homeland@[0];
            assert(Homeland::Blue.spec_abbrev() == 'B');
            assert(Homeland::Red.spec_abbrev() == 'R');
            assert(Homeland::Green.spec_abbrev() == 'G');
            assert(Homeland::Yellow.spec_abbrev() == 'Y');
        }
    }
    let h = h?;
    let p = match Pos::parse(pos) {
        Ok(p) => p,
        Err(_) => {
            return None;
        },
    };
    Some(CellIndexBuilder::Homeland { homeland: h, pos: p }.build())
}

/// A border code and a shift.
pub fn parse_as_border(border: &str, shift: &str) -> (r: Option<CellIndex>)
    ensures
        r == CellIndex::spec_parse_as_border(border@, shift@),
{
    let b = Border::parse(border)?;
    let s = parse_u8(shift)?;
    Some(CellIndexBuilder::Border { border: b, shift: s }.build())
}

impl CellIndexCommandSuffix {
    pub open spec fn spec_format(self) -> Seq<char> {
        match self.0 {
            CellIndex::Center => seq!['0', '_', '0'],
            CellIndex::Homeland { homeland, pos } => seq![
                (homeland.spec_abbrev() as u32 + 32) as char,
                '_',
            ] + dec(pos.x as nat) + seq!['_'] + dec(pos.y as nat),
            CellIndex::Border { border, shift } => border.spec_code_low() + seq!['_'] + dec(
                shift as nat,
            ),
        }
    }

    pub fn to_string(&self) -> (r: String)
        ensures
            r@ == self.spec_format(),
    {
        proof {
            reveal_strlit("0_0");
        }
        match self.0 {
            CellIndex::Center => String::from_str("0_0"),
            CellIndex::Homeland { homeland, pos } => {
                let mut s = String::new();
                push_char(&mut s, homeland.as_abbrev_low());
                push_char(&mut s, '_');
                push_decimal(&mut s, pos.x as u64);
                push_char(&mut s, '_');
                push_decimal(&mut s, pos.y as u64);
                assert(s@ =~= self.spec_format());
                s
            },
            CellIndex::Border { border, shift } => {
                let mut s = String::from_str(border.as_str_low());
                push_char(&mut s, '_');
                push_decimal(&mut s, shift as u64);
                s
            },
        }
    }
}

/// A homeland position on an axis builds to the same cell as the border cell
/// (or the center) at that place, built directly; and building is idempotent.
pub proof fn lemma_canonicalization(homeland: Homeland, pos: Pos)
    requires
        pos.x == 0 || pos.y == 0,
    ensures
        pos.x == 0 ==> (CellIndexBuilder::Homeland { homeland, pos }).spec_build() == (
        CellIndexBuilder::Border {
            border: homeland.spec_neighbour(BorderDirection::Vertical),
            shift: pos.y,
        }).spec_build(),
        pos.y == 0 ==> (CellIndexBuilder::Homeland { homeland, pos }).spec_build() == (
        CellIndexBuilder::Border {
            border: homeland.spec_neighbour(BorderDirection::Horizontal),
            shift: pos.x,
        }).spec_build(),
        pos.x == 0 && pos.y == 0 ==> (CellIndexBuilder::Homeland { homeland, pos }).spec_build()
            == CellIndexBuilder::Center.spec_build(),
        !((CellIndexBuilder::Homeland { homeland, pos }).spec_build() is Homeland),
        CellIndexBuilder::spec_from(
            (CellIndexBuilder::Homeland { homeland, pos }).spec_build(),
        ).spec_build() == (CellIndexBuilder::Homeland { homeland, pos }).spec_build(),
{
}

/// Parsing the name of a canonical cell gives the cell back.
pub proof fn lemma_parse_format(c: CellIndex)
    requires
        c.is_canonical(),
    ensures
        CellIndex::spec_parse(c.spec_format()) == Some(c),
{
    let s = c.spec_format();
    match c {
        CellIndex::Center => {},
        CellIndex::Homeland { homeland, pos } => {
            lemma_dec(pos.x as nat);
            lemma_dec(pos.y as nat);
            assert(s[1] == ' ');
            assert(s[0] != ' ');
            lemma_first_index_of(s, ' ', 1);
            assert(s.len() >= 5);
            assert(s != seq!['0', '#', '0']);
            let left = s.take(1);
            let right = s.skip(2);
            assert(left =~= seq![homeland.spec_abbrev()]);
            assert(right =~= pos.spec_format());
            lemma_pos_parse_format(pos);
        },
        CellIndex::Border { border, shift } => {
            lemma_dec(shift as nat);
            assert(s[2] == ' ');
            assert(s[0] != ' ' && s[1] != ' ');
            lemma_first_index_of(s, ' ', 2);
            assert(s.len() >= 4);
            assert(s != seq!['0', '#', '0']);
            let left = s.take(2);
            let right = s.skip(3);
            assert(left =~= border.spec_code());
            assert(right =~= dec(shift as nat));
            lemma_parse_u8_dec(shift);
        },
    }
}

pub proof fn lemma_parse_u8_dec(n: u8)
    ensures
        parse_u8_spec(dec(n as nat)) == Some(n),
{
    lemma_dec(n as nat);
    let d = dec(n as nat);
    assert(d[0] != '+');
}

pub proof fn lemma_pos_parse_format(p: Pos)
    ensures
        Pos::spec_parse(p.spec_format()) == Some(p),
{
    let s = p.spec_format();
    let dx = dec(p.x as nat);
    lemma_dec(p.x as nat);
    lemma_dec(p.y as nat);
    assert forall|j: int| 0 <= j < dx.len() implies s[j] != '#' by {
        assert(s[j] == dx[j]);
    }
    assert(s[dx.len() as int] == '#');
    lemma_first_index_of(s, '#', dx.len() as int);
    assert(s.take(dx.len() as int) =~= dx);
    assert(s.skip(dx.len() + 1 as int) =~= dec(p.y as nat));
    lemma_parse_u8_dec(p.x);
    lemma_parse_u8_dec(p.y);
}

} // verus!
