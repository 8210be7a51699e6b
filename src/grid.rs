use crate::cell::{cell_parts, spec_cell_parts, CellElement, PoI};
use crate::homeland::Homeland;
use crate::index::{opt_view, BorderDirection, CellIndex};
use num_integer::Roots;
use vstd::prelude::*;

verus! {

/// The labels that the map page gives one cell.
pub struct RawCell {
    pub bottom_right: Option<String>,
    pub top_right: Option<String>,
    pub center: Option<String>,
}

/// One cell of a parsed map.
#[derive(Clone, Copy, Debug)]
pub struct Cell {
    pub index: CellIndex,
    pub poi: Option<PoI>,
    /// Column, 0 in the middle of the map.
    pub x: i8,
    /// Row, 0 in the middle of the map.
    pub y: i8,
    /// For each homeland, in cycle order, the campfire that a scroll of escape
    /// reaches from here.
    pub nearest_campfire: [Option<CellIndex>; 4],
}

/// Why a list of cells is not a map.
#[derive(Clone, Copy, Debug, PartialEq, Eq, Structural)]
pub enum GridError {
    /// The number of cells is not a square.
    NotSquare(usize),
    /// The side of the square is even, so there is no middle cell.
    EvenSide(usize),
    /// The side is too long for the coordinates.
    TooLarge(usize),
    /// The labels of the cell at this position name no cell.
    CannotIndex(usize),
    CenterNotFound,
    /// The center cell is not in the middle; its coordinates.
    UnexpectedCenter(i8, i8),
}

/// A parsed map: the cells row by row, and where the campfires are.
pub struct MapGrid {
    pub square_size: usize,
    /// Row major.
    pub grid: Vec<Cell>,
    /// The cells with a campfire, in map order.
    pub campfires: Vec<CellIndex>,
}

/// |a - b| + |c - d|.
pub open spec fn manhattan(a: int, b: int, c: int, d: int) -> nat {
    ((if a >= b {
        a - b
    } else {
        b - a
    }) + (if c >= d {
        c - d
    } else {
        d - c
    })) as nat
}

/// Manhattan distance between two grid positions.
pub fn manhattan_distance(from: (isize, isize), to: (isize, isize)) -> (r: usize)
    requires
        -128 <= from.0 <= 127,
        -128 <= from.1 <= 127,
        -128 <= to.0 <= 127,
        -128 <= to.1 <= 127,
    ensures
        r == manhattan(from.0 as int, to.0 as int, from.1 as int, to.1 as int),
{
    let dx = if from.0 >= to.0 {
        from.0 - to.0
    } else {
        to.0 - from.0
    };
    let dy = if from.1 >= to.1 {
        from.1 - to.1
    } else {
        to.1 - from.1
    };
    (dx + dy) as usize
}

impl Cell {
    pub open spec fn spec_distance(self, other: Cell) -> nat {
        manhattan(self.x as int, other.x as int, self.y as int, other.y as int)
    }

    /// Steps between the two cells' grid positions.
    pub fn distance(&self, other: &Cell) -> (r: usize)
        ensures
            r == self.spec_distance(*other),
    {
        manhattan_distance((self.x as isize, self.y as isize), (other.x as isize, other.y as isize))
    }
}

/// Relies on `num_integer::Roots::sqrt`: the truncated square root, r² ≤ x < (r+1)².
#[verifier::external_body]
fn isqrt(x: usize) -> (r: usize)
    ensures
        r * r <= x < (r + 1) * (r + 1),
{
    x.sqrt()
}

pub open spec fn raw_index(c: RawCell) -> Option<CellIndex> {
    CellIndex::spec_from_parts(opt_string_view(c.bottom_right), opt_string_view(c.top_right))
}

pub open spec fn opt_string_view(s: Option<String>) -> Option<Seq<char>> {
    match s {
        Some(t) => Some(t@),
        None => None,
    }
}

/// The point of interest that a raw cell's central label marks.
pub open spec fn raw_poi(c: RawCell) -> Option<PoI> {
    match c.center {
        Some(t) => if t@.len() == 1 {
            spec_cell_parts(Some(CellElement::Emoji(crate::cell::EmojiCode(t@[0], None))))
        } else if t@.len() == 2 {
            spec_cell_parts(Some(CellElement::Emoji(crate::cell::EmojiCode(t@[0], Some(t@[1])))))
        } else {
            None
        },
        None => None,
    }
}

/// The homeland across `h`'s border in direction `d`.
pub open spec fn across(h: Homeland, d: BorderDirection) -> Homeland {
    let b = h.spec_neighbour(d);
    if b.spec_neighbours().0 == h {
        b.spec_neighbours().1
    } else {
        b.spec_neighbours().0
    }
}

fn across_exec(h: Homeland, d: BorderDirection) -> (r: Homeland)
    ensures
        r == across(h, d),
{
    let b = h.neighbour(d);
    let n = b.neighbours();
    if n[0] == h {
        n[1]
    } else {
        n[0]
    }
}

/// What the search reads of a cell: its identity, point of interest and place.
pub open spec fn place(c: Cell) -> (CellIndex, Option<PoI>, i8, i8) {
    (c.index, c.poi, c.x, c.y)
}

pub open spec fn places(g: Seq<Cell>) -> Seq<(CellIndex, Option<PoI>, i8, i8)> {
    g.map_values(|c: Cell| place(c))
}

/// Position of the cell at column `x`, row `y` of a map with the given side.
pub open spec fn pos_of(side: int, x: int, y: int) -> int {
    (y + side / 2) * side + (x + side / 2)
}

/// The cell whose nearest campfire stands for that of cell `k` for homeland
/// `h`: a cell of another homeland, or of a border that `h` does not touch,
/// is taken at the nearest point of `h`'s borders or at the center.
pub open spec fn projection(side: int, g: Seq<(CellIndex, Option<PoI>, i8, i8)>, k: int, h: Homeland) -> int {
    let c = g[k];
    match c.0 {
        CellIndex::Homeland { homeland, .. } => if homeland == h {
            k
        } else if homeland == across(h, BorderDirection::Vertical) {
            pos_of(side, 0, c.3 as int)
        } else if homeland == across(h, BorderDirection::Horizontal) {
            pos_of(side, c.2 as int, 0)
        } else {
            pos_of(side, 0, 0)
        },
        CellIndex::Border { border, .. } => if border == h.spec_neighbour(BorderDirection::Vertical)
            || border == h.spec_neighbour(BorderDirection::Horizontal) {
            k
        } else {
            pos_of(side, 0, 0)
        },
        CellIndex::Center => k,
    }
}

/// Cell `j` is a campfire inside homeland `h`.
pub open spec fn is_campfire_of(g: Seq<(CellIndex, Option<PoI>, i8, i8)>, j: int, h: Homeland) -> bool {
    &&& 0 <= j < g.len()
    &&& g[j].1 == Some(PoI::Campfire)
    &&& g[j].0 matches CellIndex::Homeland { homeland, .. } && homeland == h
}

pub open spec fn abs8(v: i8) -> int {
    if v >= 0 {
        v as int
    } else {
        -v
    }
}

/// Campfire `a` is at least as near to cell `k` as campfire `b`: by distance,
/// then by the distance of each from the middle column and row.
pub open spec fn nearer(g: Seq<(CellIndex, Option<PoI>, i8, i8)>, k: int, a: int, b: int) -> bool {
    let da = manhattan(g[k].2 as int, g[a].2 as int, g[k].3 as int, g[a].3 as int);
    let db = manhattan(g[k].2 as int, g[b].2 as int, g[k].3 as int, g[b].3 as int);
    da < db || (da == db && (abs8(g[a].2) < abs8(g[b].2) || (abs8(g[a].2) == abs8(g[b].2)
        && abs8(g[a].3) <= abs8(g[b].3))))
}

/// `r` is the campfire of `h` that a scroll reaches from cell `k`: the cell
/// itself if it is one, else one nearest to it; none if `h` has none.
pub open spec fn nearest_ok(g: Seq<(CellIndex, Option<PoI>, i8, i8)>, k: int, h: Homeland, r: Option<CellIndex>) -> bool {
    if is_campfire_of(g, k, h) {
        r == Some(g[k].0)
    } else {
        match r {
            None => forall|j: int| !is_campfire_of(g, j, h),
            Some(c) => exists|a: int|
                {
                    &&& #[trigger] is_campfire_of(g, a, h)
                    &&& g[a].0 == c
                    &&& forall|j: int| #[trigger] is_campfire_of(g, j, h) ==> nearer(g, k, a, j)
                },
        }
    }
}

/// The last place in `g` of the cell `c`.
pub open spec fn last_index(g: Seq<Cell>, c: CellIndex) -> Option<int>
    decreases g.len(),
{
    if g.len() == 0 {
        None
    } else if g.last().index == c {
        Some(g.len() - 1)
    } else {
        last_index(g.drop_last(), c)
    }
}

/// After the last place of `c` no cell is `c`.
pub proof fn lemma_last_index_after(g: Seq<Cell>, c: CellIndex, k: int, j: int)
    requires
        last_index(g, c) == Some(k),
        0 <= k < j < g.len(),
    ensures
        g[j].index != c,
    decreases g.len(),
{
    if g.last().index != c {
        if j < g.len() - 1 {
            lemma_last_index_after(g.drop_last(), c, k, j);
            assert(g.drop_last()[j] == g[j]);
        }
    }
}

impl MapGrid {
    pub open spec fn homeland_size_spec(self) -> nat {
        (self.square_size / 2) as nat
    }

    /// The shape of a parsed map: an odd square whose cells lie row by row with
    /// the center in the middle, and the scroll table.
    #[verifier::opaque]
    pub open spec fn wf(self) -> bool {
        let side = self.square_size as int;
        let m = self.homeland_size_spec() as int;
        let g = places(self.grid@);
        &&& side % 2 == 1
        &&& side <= 255
        &&& self.grid@.len() == side * side
        &&& self.campfires@.len() <= self.grid@.len()
        &&& forall|k: int|
            0 <= k < self.grid@.len() ==> (#[trigger] self.grid@[k]).x == k % side - m
                && self.grid@[k].y == k / side - m
        &&& self.grid@[pos_of(side, 0, 0)].index == CellIndex::Center
        &&& forall|k: int, i: int|
            0 <= k < self.grid@.len() && 0 <= i < 4 ==> nearest_ok(
                g,
                projection(side, g, k, Homeland::from_ord(i as nat)),
                Homeland::from_ord(i as nat),
                #[trigger] self.grid@[k].nearest_campfire@[i],
            )
    }

    /// Side of a homeland.
    pub fn homeland_size(&self) -> (r: usize)
        ensures
            r == self.homeland_size_spec(),
    {
        self.square_size / 2
    }

    /// Where the cell `c` stands in `grid`; the last such place if several.
    pub fn position(&self, c: CellIndex) -> (r: Option<usize>)
        ensures
            r matches Some(k) ==> k < self.grid@.len() && self.grid@[k as int].index == c
                && last_index(self.grid@, c) == Some(k as int),
            r is None ==> last_index(self.grid@, c) is None && forall|k: int|
                0 <= k < self.grid@.len() ==> self.grid@[k].index != c,
    {
        let ghost g = self.grid@;
        let mut k = self.grid.len();
        assert(g.take(k as int) =~= g);
        while k > 0
            invariant
                k <= g.len(),
                g == self.grid@,
                last_index(g, c) == last_index(g.take(k as int), c),
                forall|j: int| k <= j < g.len() ==> g[j].index != c,
            decreases k,
        {
            let ghost t = g.take(k as int);
            assert(t.drop_last() =~= g.take(k - 1));
            k = k - 1;
            if self.grid[k].index == c {
                return Some(k);
            }
        }
        proof {
            assert(g.take(0) =~= Seq::<Cell>::empty());
        }
        None
    }
}

fn is_campfire_exec(c: &Cell, h: Homeland) -> (r: bool)
    ensures
        r == (place(*c).1 == Some(PoI::Campfire) && (place(*c).0 matches CellIndex::Homeland {
            homeland,
            ..
        } && homeland == h)),
{
    match (c.poi, c.index) {
        (Some(PoI::Campfire), CellIndex::Homeland { homeland, .. }) => homeland == h,
        _ => false,
    }
}

fn abs_i8(v: i8) -> (r: u8)
    ensures
        r == abs8(v),
{
    if v >= 0 {
        v as u8
    } else {
        (-(v as i16)) as u8
    }
}

/// The campfire of `h` that a scroll of escape reaches from cell `k`.
fn nearest_campfire(cells: &Vec<Cell>, k: usize, h: Homeland) -> (r: Option<CellIndex>)
    requires
        k < cells@.len(),
    ensures
        nearest_ok(places(cells@), k as int, h, r),
{
    let ghost g = places(cells@);
    let n = cells.len();
    assert(g.len() == n);
    assert(g[k as int] == place(cells@[k as int]));
    if is_campfire_exec(&cells[k], h) {
        return Some(cells[k].index);
    }
    let from = cells[k];
    let mut best: Option<usize> = None;
    let mut best_key: (usize, u8, u8) = (0, 0, 0);
    let mut j: usize = 0;
    while j < n
        invariant
            j <= n == cells@.len(),
            g == places(cells@),
            g.len() == n,
            k < n,
            from == cells@[k as int],
            best matches Some(a) ==> a < j && is_campfire_of(g, a as int, h) && best_key == (
                manhattan(g[k as int].2 as int, g[a as int].2 as int, g[k as int].3 as int, g[a as int].3 as int) as usize,
                abs8(g[a as int].2) as u8,
                abs8(g[a as int].3) as u8,
            ) && forall|i: int| 0 <= i < j && #[trigger] is_campfire_of(g, i, h) ==> nearer(g, k as int, a as int, i),
            best is None ==> forall|i: int| 0 <= i < j ==> !#[trigger] is_campfire_of(g, i, h),
        decreases n - j,
    {
        assert(g[j as int] == place(cells@[j as int]));
        if is_campfire_exec(&cells[j], h) {
            let c = cells[j];
            let key = (from.distance(&c), abs_i8(c.x), abs_i8(c.y));
            let better = match best {
                None => true,
                Some(_) => key.0 < best_key.0 || (key.0 == best_key.0 && (key.1 < best_key.1 || (
                key.1 == best_key.1 && key.2 < best_key.2))),
            };
            if better {
                best = Some(j);
                best_key = key;
            }
        }
        j = j + 1;
    }
    match best {
        Some(a) => {
            assert(is_campfire_of(g, a as int, h));
            Some(cells[a].index)
        },
        None => {
            assert forall|i: int| !is_campfire_of(g, i, h) by {
                if 0 <= i < n {
                }
            }
            None
        },
    }
}

impl MapGrid {
    /// Reads a map from the labels of its cells, given row by row.
    pub fn from_cells(cells: &Vec<RawCell>) -> (r: Result<MapGrid, GridError>)
        ensures
            r matches Ok(g) ==> g.wf() && g.grid@.len() == cells@.len() && forall|k: int|
                0 <= k < cells@.len() ==> Some((#[trigger] g.grid@[k]).index) == raw_index(cells@[k])
                    && g.grid@[k].poi == raw_poi(cells@[k]),
            r matches Err(GridError::NotSquare(n)) ==> n == cells@.len() && forall|s: int|
                0 <= s ==> #[trigger] (s * s) != n,
            r matches Err(GridError::EvenSide(s)) ==> s * s == cells@.len() && s % 2 == 0,
            r matches Err(GridError::TooLarge(s)) ==> s * s == cells@.len() && s > 255,
            r matches Err(GridError::CannotIndex(k)) ==> k < cells@.len() && raw_index(cells@[k as int]) is None
                && forall|j: int| 0 <= j < k ==> raw_index(#[trigger] cells@[j]) is Some,
            r matches Err(GridError::CenterNotFound) ==> forall|k: int|
                0 <= k < cells@.len() ==> raw_index(#[trigger] cells@[k]) != Some(CellIndex::Center),
            r matches Err(GridError::UnexpectedCenter(x, y)) ==> (x != 0 || y != 0) && exists|s: int, k: int|
                {
                    &&& #[trigger] (s * s) == cells@.len()
                    &&& 0 <= k < cells@.len()
                    &&& raw_index(#[trigger] cells@[k]) == Some(CellIndex::Center)
                    &&& forall|j: int| k < j < cells@.len() ==> raw_index(#[trigger] cells@[j]) != Some(CellIndex::Center)
                    &&& x == k % s - s / 2
                    &&& y == k / s - s / 2
                },
    {
        let n = cells.len();
        let side = isqrt(n);
        if side * side != n {
            proof {
                assert forall|s: int| 0 <= s implies #[trigger] (s * s) != n by {
                    if s * s == n {
                        if s <= side {
                            assert(s * s <= side * side) by (nonlinear_arith)
                                requires 0 <= s <= side;
                        } else {
                            assert(s * s >= (side + 1) * (side + 1)) by (nonlinear_arith)
                                requires s >= side + 1, side >= 0;
                        }
                    }
                }
            }
            return Err(GridError::NotSquare(n));
        }
        if side % 2 == 0 {
            return Err(GridError::EvenSide(side));
        }
        if side > 255 {
            return Err(GridError::TooLarge(side));
        }
        let m = side / 2;
        let mut grid: Vec<Cell> = Vec::new();
        let mut k: usize = 0;
        while k < n
            invariant
                k <= n == cells@.len(),
                n == side * side,
                side <= 255,
                side % 2 == 1,
                m == side / 2,
                grid@.len() == k,
                forall|j: int| 0 <= j < k ==> raw_index(#[trigger] cells@[j]) is Some,
                forall|j: int|
                    0 <= j < k ==> (#[trigger] grid@[j]).x == j % side as int - m && grid@[j].y == j
                        / side as int - m && Some(grid@[j].index) == raw_index(cells@[j])
                        && grid@[j].poi == raw_poi(cells@[j]),
            decreases n - k,
        {
            let raw = &cells[k];
            let a = match &raw.bottom_right {
                Some(t) => Some(t.as_str()),
                None => None,
            };
            let b = match &raw.top_right {
                Some(t) => Some(t.as_str()),
                None => None,
            };
            assert(opt_view(a) == opt_string_view(raw.bottom_right));
            assert(opt_view(b) == opt_string_view(raw.top_right));
            let index = match CellIndex::from_parts(a, b) {
                Ok(c) => c,
                Err(_) => {
                    return Err(GridError::CannotIndex(k));
                },
            };
            let poi = match &raw.center {
                Some(t) => cell_parts(&CellElement::from_text(t.as_str())),
                None => None,
            };
            proof {
                if let Some(t) = &raw.center {
                    if t@.len() == 1 || t@.len() == 2 {
                        assert(t@ =~= if t@.len() == 1 { seq![t@[0]] } else { seq![t@[0], t@[1]] });
                    }
                }
            }
            assert(poi == raw_poi(cells@[k as int]));
            proof {
                assert(k / side < side) by (nonlinear_arith)
                    requires k < side * side, side > 0;
            }
            let x = ((k % side) as i16 - m as i16) as i8;
            let y = ((k / side) as i16 - m as i16) as i8;
            grid.push(Cell { index, poi, x, y, nearest_campfire: [None, None, None, None] });
            k = k + 1;
        }
        let probe = MapGrid { square_size: side, grid, campfires: Vec::new() };
        let center = match probe.position(CellIndex::Center) {
            None => {
                assert forall|k: int| 0 <= k < cells@.len() implies raw_index(#[trigger] cells@[k])
                    != Some(CellIndex::Center) by {
                    assert(probe.grid@[k].index != CellIndex::Center);
                }
                return Err(GridError::CenterNotFound);
            },
            Some(p) => p,
        };
        let MapGrid { grid, .. } = probe;
        if grid[center].x != 0 || grid[center].y != 0 {
            proof {
                let c = center as int;
                assert(raw_index(cells@[c]) == Some(CellIndex::Center));
                assert forall|j: int| c < j < cells@.len() implies raw_index(#[trigger] cells@[j])
                    != Some(CellIndex::Center) by {
                    crate::grid::lemma_last_index_after(grid@, CellIndex::Center, c, j);
                }
                assert((side as int) * (side as int) == cells@.len());
            }
            return Err(GridError::UnexpectedCenter(grid[center].x, grid[center].y));
        }
        proof {
            let c = center as int;
            let sd = side as int;
            assert(c % sd == m && c / sd == m);
            assert(c == (c / sd) * sd + c % sd) by (nonlinear_arith)
                requires sd > 0;
            assert(pos_of(sd, 0, 0) == c);
        }
        let mut campfires: Vec<CellIndex> = Vec::new();
        let mut j: usize = 0;
        while j < n
            invariant
                j <= n == grid@.len(),
                campfires@.len() <= j,
            decreases n - j,
        {
            if grid[j].poi == Some(PoI::Campfire) {
                campfires.push(grid[j].index);
            }
            j = j + 1;
        }
        let ghost g = places(grid@);
        let homelands = Homeland::all();
        let mut out: Vec<Cell> = Vec::new();
        let mut k: usize = 0;
        while k < n
            invariant
                k <= n == grid@.len(),
                campfires@.len() <= n,
                n == side * side,
                side <= 255,
                side % 2 == 1,
                m == side / 2,
                g == places(grid@),
                out@.len() == k,
                forall|i: int| 0 <= i < 4 ==> #[trigger] homelands@[i] == Homeland::from_ord(i as nat),
                forall|j: int| 0 <= j < k ==> place(#[trigger] out@[j]) == place(grid@[j]),
                forall|j: int, i: int|
                    0 <= j < k && 0 <= i < 4 ==> nearest_ok(
                        g,
                        projection(side as int, g, j, Homeland::from_ord(i as nat)),
                        Homeland::from_ord(i as nat),
                        #[trigger] out@[j].nearest_campfire@[i],
                    ),
                forall|j: int|
                    0 <= j < n ==> (#[trigger] grid@[j]).x == j % side as int - m && grid@[j].y == j
                        / side as int - m,
            decreases n - k,
        {
            let mut table: [Option<CellIndex>; 4] = [None, None, None, None];
            let mut i: usize = 0;
            while i < 4
                invariant
                    i <= 4,
                    k < n == grid@.len(),
                    n == side * side,
                    side <= 255,
                    side % 2 == 1,
                    m == side / 2,
                    g == places(grid@),
                    forall|i: int| 0 <= i < 4 ==> #[trigger] homelands@[i] == Homeland::from_ord(i as nat),
                    forall|q: int| 0 <= q < i ==> nearest_ok(
                        g,
                        projection(side as int, g, k as int, Homeland::from_ord(q as nat)),
                        Homeland::from_ord(q as nat),
                        #[trigger] table@[q],
                    ),
                    forall|j: int|
                        0 <= j < n ==> (#[trigger] grid@[j]).x == j % side as int - m && grid@[j].y == j
                            / side as int - m,
                decreases 4 - i,
            {
                let h = homelands[i];
                let p = projection_exec(&grid, side, k, h);
                table[i] = nearest_campfire(&grid, p, h);
                i = i + 1;
            }
            let c = grid[k];
            out.push(Cell { index: c.index, poi: c.poi, x: c.x, y: c.y, nearest_campfire: table });
            k = k + 1;
        }
        proof {
            assert(places(out@) =~= g);
        }
        let r = MapGrid { square_size: side, grid: out, campfires };
        proof {
            reveal(MapGrid::wf);
        }
        Ok(r)
    }
}

/// Position in a row-major grid of side `square_size` of the cell at column
/// `x`, row `y`, counted from the middle.
pub fn xy_to_i(homeland_size: isize, square_size: usize, x: isize, y: isize) -> (r: usize)
    requires
        square_size <= 255,
        homeland_size == square_size as int / 2,
        0 <= x + homeland_size < square_size,
        0 <= y + homeland_size < square_size,
    ensures
        r == pos_of(square_size as int, x as int, y as int),
        r < square_size * square_size,
{
    let col = (x + homeland_size) as usize;
    let row = (y + homeland_size) as usize;
    proof {
        assert(row * square_size + col < square_size * square_size) by (nonlinear_arith)
            requires row < square_size, col < square_size;
        assert(square_size * square_size <= 255 * 255) by (nonlinear_arith)
            requires square_size <= 255;
    }
    col + row * square_size
}

/// Position of the cell that stands for cell `k` when looking for a campfire of `h`.
fn projection_exec(grid: &Vec<Cell>, side: usize, k: usize, h: Homeland) -> (r: usize)
    requires
        k < grid@.len() == side * side,
        side <= 255,
        side % 2 == 1,
        forall|j: int|
            0 <= j < grid@.len() ==> (#[trigger] grid@[j]).x == j % side as int - side / 2 && grid@[j].y == j
                / side as int - side / 2,
    ensures
        r == projection(side as int, places(grid@), k as int, h),
        r < grid@.len(),
{
    let c = grid[k];
    let m = side / 2;
    assert(places(grid@)[k as int] == place(c));
    proof {
        assert(k / side < side) by (nonlinear_arith)
            requires k < side * side, side > 0;
    }
    assert(c.x == (k as int) % (side as int) - m && c.y == (k as int) / (side as int) - m);
    let hs = m as isize;
    let on_column = xy_to_i(hs, side, 0, c.y as isize);
    let on_row = xy_to_i(hs, side, c.x as isize, 0);
    let middle = xy_to_i(hs, side, 0, 0);
    match c.index {
        CellIndex::Homeland { homeland, .. } => {
            if homeland == h {
                k
            } else if homeland == across_exec(h, BorderDirection::Vertical) {
                on_column
            } else if homeland == across_exec(h, BorderDirection::Horizontal) {
                on_row
            } else {
                middle
            }
        },
        CellIndex::Border { border, .. } => {
            if border == h.neighbour(BorderDirection::Vertical) || border == h.neighbour(
                BorderDirection::Horizontal,
            ) {
                k
            } else {
                middle
            }
        },
        CellIndex::Center => k,
    }
}

} // verus!
