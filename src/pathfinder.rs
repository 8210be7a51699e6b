use crate::binary_heap::{is_total_preorder, max_heap_len, BinaryHeap, Compare};
use crate::cost::{extend_fits, spec_extend, standing, CaravanCost, Command, EdgeCost, ScrollCosts, TotalCost};
use crate::duration::Duration;
use crate::grid::{last_index, Cell, MapGrid};
use crate::homeland::Homeland;
use crate::index::{Border, BorderDirection, CellIndex, CellIndexBuilder, Pos};
use crate::order::{flip, lemma_cost_order_total, lemma_key_of_sums, lex, CostComparator, CostOrder};
use std::cmp::Ordering;
use crate::skill::{Fleetfoot, RouteGuru, Skill};
use vstd::prelude::*;

verus! {

broadcast use vstd::seq_lib::group_to_multiset_ensures;

/// Seconds of a caravan ride per step of distance, before the route skill.
pub const CARAVAN_SECONDS: u64 = 240;

/// Price per step of a caravan ride to the player's own homeland.
pub const CARAVAN_TO_HOME_MONEY: u32 = 2;

/// Price per step of a caravan ride to the center.
pub const CARAVAN_TO_CENTER_MONEY: u32 = 2;

/// Price per step of any other caravan ride.
pub const CARAVAN_MONEY: u32 = 5;

/// A route query: which shortcuts are enabled, the player's skills and
/// homeland, how routes are ranked, and the map.
pub struct FindPath<'a> {
    pub scroll_of_escape_cost: u32,
    pub scroll_of_escape_hq_cost: u32,
    pub scroll_of_escape_forum_cost: u32,
    pub use_soe: bool,
    pub use_sfm: bool,
    pub use_caravans: bool,
    pub hq_position: Option<CellIndex>,
    pub route_guru: RouteGuru,
    pub fleetfoot: Fleetfoot,
    pub sort_by: (CostComparator, CostComparator),
    pub homeland: Homeland,
    pub grid: &'a MapGrid,
}

/// The grid moves out of cell `v` on a map whose homelands have side `n`.
pub open spec fn base_edges(v: CellIndex, n: nat) -> Seq<(CellIndex, EdgeCost)> {
    match v {
        CellIndex::Center => seq![
            ((CellIndexBuilder::Border { border: Border::BR, shift: 1 }).spec_build(), EdgeCost::CentralMove),
            ((CellIndexBuilder::Border { border: Border::RG, shift: 1 }).spec_build(), EdgeCost::CentralMove),
            ((CellIndexBuilder::Border { border: Border::GY, shift: 1 }).spec_build(), EdgeCost::CentralMove),
            ((CellIndexBuilder::Border { border: Border::YB, shift: 1 }).spec_build(), EdgeCost::CentralMove),
        ],
        CellIndex::Border { border, shift } => {
            let back = if shift == 1 {
                (CellIndex::Center, EdgeCost::CentralMove)
            } else {
                (
                    (CellIndexBuilder::Border { border, shift: (shift - 1) as u8 }).spec_build(),
                    EdgeCost::StandardMove,
                )
            };
            let forth = if (shift as nat) < n {
                seq![
                    (
                        (CellIndexBuilder::Border { border, shift: (shift + 1) as u8 }).spec_build(),
                        EdgeCost::StandardMove,
                    ),
                ]
            } else {
                Seq::empty()
            };
            let adj = border.spec_direction().spec_adjacent_pos(shift);
            seq![back] + forth + seq![
                (
                    (CellIndexBuilder::Homeland { homeland: border.spec_neighbours().0, pos: adj }).spec_build(),
                    EdgeCost::StandardMove,
                ),
                (
                    (CellIndexBuilder::Homeland { homeland: border.spec_neighbours().1, pos: adj }).spec_build(),
                    EdgeCost::StandardMove,
                ),
            ]
        },
        CellIndex::Homeland { homeland, pos } => {
            let left = if pos.x == 1 {
                (CellIndexBuilder::Border {
                    border: homeland.spec_neighbour(BorderDirection::Vertical),
                    shift: pos.y,
                }).spec_build()
            } else {
                (CellIndexBuilder::Homeland {
                    homeland,
                    pos: Pos { x: (pos.x - 1) as u8, y: pos.y },
                }).spec_build()
            };
            let down = if pos.y == 1 {
                (CellIndexBuilder::Border {
                    border: homeland.spec_neighbour(BorderDirection::Horizontal),
                    shift: pos.x,
                }).spec_build()
            } else {
                (CellIndexBuilder::Homeland {
                    homeland,
                    pos: Pos { x: pos.x, y: (pos.y - 1) as u8 },
                }).spec_build()
            };
            let right = if (pos.x as nat) < n {
                seq![
                    (
                        (CellIndexBuilder::Homeland {
                            homeland,
                            pos: Pos { x: (pos.x + 1) as u8, y: pos.y },
                        }).spec_build(),
                        EdgeCost::StandardMove,
                    ),
                ]
            } else {
                Seq::empty()
            };
            let up = if (pos.y as nat) < n {
                seq![
                    (
                        (CellIndexBuilder::Homeland {
                            homeland,
                            pos: Pos { x: pos.x, y: (pos.y + 1) as u8 },
                        }).spec_build(),
                        EdgeCost::StandardMove,
                    ),
                ]
            } else {
                Seq::empty()
            };
            seq![(left, EdgeCost::StandardMove), (down, EdgeCost::StandardMove)] + right + up
        },
    }
}

/// The grid moves out of `v`, as built by the edge generator.
fn push_base_edges(out: &mut Vec<(CellIndex, EdgeCost)>, v: CellIndex, n: usize)
    requires
        old(out)@.len() == 0,
        v.is_canonical(),
        n <= 255,
    ensures
        final(out)@ == base_edges(v, n as nat),
{
    match v {
        CellIndex::Center => {
            let borders = Border::all();
            let mut i: usize = 0;
            while i < 4
                invariant
                    i <= 4,
                    borders@ == seq![Border::BR, Border::RG, Border::GY, Border::YB],
                    out@.len() == i,
                    forall|j: int| 0 <= j < i ==> #[trigger] out@[j] == (
                        (CellIndexBuilder::Border { border: borders@[j], shift: 1 }).spec_build(),
                        EdgeCost::CentralMove,
                    ),
                decreases 4 - i,
            {
                out.push((CellIndexBuilder::Border { border: borders[i], shift: 1 }.build(), EdgeCost::CentralMove));
                i = i + 1;
            }
            assert(out@ =~= base_edges(v, n as nat));
        },
        CellIndex::Border { border, shift } => {
            if shift == 1 {
                out.push((CellIndex::Center, EdgeCost::CentralMove));
            } else {
                out.push((CellIndexBuilder::Border { border, shift: shift - 1 }.build(), EdgeCost::StandardMove));
            }
            if (shift as usize) < n {
                out.push((CellIndexBuilder::Border { border, shift: shift + 1 }.build(), EdgeCost::StandardMove));
            }
            let adj = border.direction().adjacent_pos_u8(shift);
            let nb = border.neighbours();
            out.push((CellIndexBuilder::Homeland { homeland: nb[0], pos: adj }.build(), EdgeCost::StandardMove));
            out.push((CellIndexBuilder::Homeland { homeland: nb[1], pos: adj }.build(), EdgeCost::StandardMove));
            assert(out@ =~= base_edges(v, n as nat));
        },
        CellIndex::Homeland { homeland, pos } => {
            let x = pos.x;
            let y = pos.y;
            let left = if x == 1 {
                CellIndexBuilder::Border { border: homeland.neighbour(BorderDirection::Vertical), shift: y }.build()
            } else {
                CellIndexBuilder::Homeland { homeland, pos: Pos { x: x - 1, y } }.build()
            };
            out.push((left, EdgeCost::StandardMove));
            let down = if y == 1 {
                CellIndexBuilder::Border { border: homeland.neighbour(BorderDirection::Horizontal), shift: x }.build()
            } else {
                CellIndexBuilder::Homeland { homeland, pos: Pos { x, y: y - 1 } }.build()
            };
            out.push((down, EdgeCost::StandardMove));
            if (x as usize) < n {
                out.push((CellIndexBuilder::Homeland { homeland, pos: Pos { x: x + 1, y } }.build(), EdgeCost::StandardMove));
            }
            if (y as usize) < n {
                out.push((CellIndexBuilder::Homeland { homeland, pos: Pos { x, y: y + 1 } }.build(), EdgeCost::StandardMove));
            }
            assert(out@ =~= base_edges(v, n as nat));
        },
    }
}

impl<'a> FindPath<'a> {
    pub open spec fn scroll_costs(&self) -> ScrollCosts {
        ScrollCosts {
            scroll_of_escape: self.scroll_of_escape_cost,
            scroll_of_escape_hq: self.scroll_of_escape_hq_cost,
            scroll_of_escape_forum: self.scroll_of_escape_forum_cost,
        }
    }

    /// Seconds of a caravan ride per step, after the route skill.
    pub open spec fn caravan_step_seconds(&self) -> nat {
        match self.route_guru.spec_time(Duration { seconds: CARAVAN_SECONDS }) {
            Some(t) => t.seconds as nat,
            None => CARAVAN_SECONDS as nat,
        }
    }

    /// The price per step of a caravan ride to `to`.
    pub open spec fn caravan_rate(&self, to: CellIndex) -> nat {
        match to {
            CellIndex::Center => CARAVAN_TO_CENTER_MONEY as nat,
            CellIndex::Homeland { homeland, .. } => if homeland == self.homeland {
                CARAVAN_TO_HOME_MONEY as nat
            } else {
                CARAVAN_MONEY as nat
            },
            _ => CARAVAN_MONEY as nat,
        }
    }

    /// A caravan ride between two cells: time and price grow with the distance.
    pub open spec fn spec_caravan_cost(&self, from: Cell, to: Cell) -> CaravanCost {
        let d = from.spec_distance(to);
        CaravanCost {
            time: Duration { seconds: (self.caravan_step_seconds() * d) as u64 },
            money: (self.caravan_rate(to.index) * d) as u32,
        }
    }

    /// The caravan rides from cell `vc` to each of `dests` other than itself
    /// that lies on the map.
    pub open spec fn caravan_edges(&self, vc: Cell, dests: Seq<CellIndex>) -> Seq<(CellIndex, EdgeCost)>
        decreases dests.len(),
    {
        if dests.len() == 0 {
            Seq::empty()
        } else {
            let rest = self.caravan_edges(vc, dests.drop_last());
            let d = dests.last();
            match last_index(self.grid.grid@, d) {
                Some(k) => if d != vc.index {
                    rest.push((d, EdgeCost::Caravan(self.spec_caravan_cost(vc, self.grid.grid@[k]))))
                } else {
                    rest
                },
                None => rest,
            }
        }
    }

    /// The shortcuts out of cell `v` that the settings enable.
    pub open spec fn shortcut_edges(&self, v: CellIndex) -> Seq<(CellIndex, EdgeCost)> {
        let g = self.grid.grid@;
        let caravans = match last_index(g, v) {
            Some(k) => if self.use_caravans && (v == CellIndex::Center
                || self.grid.campfires@.contains(v)) {
                self.caravan_edges(g[k], seq![CellIndex::Center] + self.grid.campfires@)
            } else {
                Seq::empty()
            },
            None => Seq::empty(),
        };
        let soe = match last_index(g, v) {
            Some(k) => if self.use_soe {
                match g[k].nearest_campfire@[self.homeland.ord() as int] {
                    Some(c) => seq![(c, EdgeCost::ScrollOfEscape)],
                    None => Seq::empty(),
                }
            } else {
                Seq::empty()
            },
            None => Seq::empty(),
        };
        let hq = match self.hq_position {
            Some(c) => seq![(c, EdgeCost::ScrollOfEscapeHQ)],
            None => Seq::empty(),
        };
        let forum = if self.use_sfm {
            seq![(CellIndex::Center, EdgeCost::ScrollOfEscapeForum)]
        } else {
            Seq::empty()
        };
        caravans + soe + hq + forum
    }

    /// Every move out of `v`: the grid moves, then the enabled shortcuts.
    pub open spec fn spec_edges(&self, v: CellIndex) -> Seq<(CellIndex, EdgeCost)> {
        base_edges(v, self.grid.homeland_size_spec()) + self.shortcut_edges(v)
    }

    /// The caravan ride between two cells of the map.
    pub fn caravan_cost(&self, from: &Cell, to: &Cell) -> (r: CaravanCost)
        requires
            -127 <= from.x <= 127,
            -127 <= from.y <= 127,
            -127 <= to.x <= 127,
            -127 <= to.y <= 127,
        ensures
            r == self.spec_caravan_cost(*from, *to),
    {
        let distance = from.distance(to) as u32;
        let rate = match to.index {
            CellIndex::Center => CARAVAN_TO_CENTER_MONEY,
            CellIndex::Homeland { homeland, .. } => if homeland == self.homeland {
                CARAVAN_TO_HOME_MONEY
            } else {
                CARAVAN_MONEY
            },
            _ => CARAVAN_MONEY,
        };
        let step = match self.route_guru.time(Duration::seconds(CARAVAN_SECONDS)) {
            Some(t) => t,
            None => Duration::seconds(CARAVAN_SECONDS),
        };
        proof {
            crate::skill::lemma_scaled_time_le(RouteGuru::ratio_of(self.route_guru.0), Duration { seconds: CARAVAN_SECONDS });
            assert(step.seconds * distance <= 240 * 1024) by (nonlinear_arith)
                requires step.seconds <= 240, distance <= 1024;
        }
        CaravanCost { time: step.times(distance as u64), money: rate * distance }
    }

    /// Every move out of `vertex` with its cost: the grid moves, then caravan
    /// rides, the scroll of escape, the HQ scroll and the forum scroll, as the
    /// settings enable them.
    pub fn edges(&self, vertex: CellIndex) -> (r: Vec<(CellIndex, EdgeCost)>)
        requires
            self.grid.wf(),
            vertex.is_canonical(),
        ensures
            r@ == self.spec_edges(vertex),
    {
        let mut out: Vec<(CellIndex, EdgeCost)> = Vec::new();
        let n = self.grid.homeland_size();
        proof {
            reveal(MapGrid::wf);
        }
        push_base_edges(&mut out, vertex, n);
        let ghost base = out@;
        let pos = self.grid.position(vertex);
        let g = &self.grid.grid;
        let mut caravans: Vec<(CellIndex, EdgeCost)> = Vec::new();
        if let Some(k) = pos {
            if self.use_caravans && (vertex == CellIndex::Center || contains_cell(&self.grid.campfires, vertex)) {
                let vc = g[k];
                proof {
                    self.lemma_cell_coordinates(k as int);
                }
                self.push_caravans(&mut caravans, vc, CellIndex::Center, &self.grid.campfires);
            }
        }
        let mut shortcuts = caravans;
        if let Some(k) = pos {
            if self.use_soe {
                if let Some(c) = g[k].nearest_campfire[self.homeland.index()] {
                    shortcuts.push((c, EdgeCost::ScrollOfEscape));
                }
            }
        }
        if let Some(c) = self.hq_position {
            shortcuts.push((c, EdgeCost::ScrollOfEscapeHQ));
        }
        if self.use_sfm {
            shortcuts.push((CellIndex::Center, EdgeCost::ScrollOfEscapeForum));
        }
        assert(shortcuts@ =~= self.shortcut_edges(vertex));
        out.append(&mut shortcuts);
        out
    }

    /// Appends the caravan rides from `vc` to `first` and then to each of `rest`.
    fn push_caravans(&self, out: &mut Vec<(CellIndex, EdgeCost)>, vc: Cell, first: CellIndex, rest: &Vec<CellIndex>)
        requires
            self.grid.wf(),
            old(out)@.len() == 0,
            -127 <= vc.x <= 127,
            -127 <= vc.y <= 127,
        ensures
            final(out)@ == self.caravan_edges(vc, seq![first] + rest@),
    {
        let ghost dests = seq![first] + rest@;
        assert(out@ =~= Seq::<(CellIndex, EdgeCost)>::empty());
        self.push_caravan(out, vc, first);
        proof {
            assert(dests.take(1).drop_last() =~= Seq::<CellIndex>::empty());
            assert(dests.take(1).last() == first);
            assert(self.caravan_edges(vc, Seq::<CellIndex>::empty()) == Seq::<(CellIndex, EdgeCost)>::empty());
        }
        let mut j: usize = 0;
        while j < rest.len()
            invariant
                j <= rest@.len(),
                dests == seq![first] + rest@,
                self.grid.wf(),
                -127 <= vc.x <= 127,
                -127 <= vc.y <= 127,
                out@ == self.caravan_edges(vc, dests.take(j + 1)),
            decreases rest@.len() - j,
        {
            let d = rest[j];
            let ghost t = dests.take(j + 2);
            assert(t.drop_last() =~= dests.take(j + 1));
            assert(t.last() == d);
            self.push_caravan(out, vc, d);
            j = j + 1;
        }
        assert(dests.take(rest@.len() + 1 as int) =~= dests);
    }

    /// Appends the caravan ride from `vc` to `d`, where there is one.
    fn push_caravan(&self, out: &mut Vec<(CellIndex, EdgeCost)>, vc: Cell, d: CellIndex)
        requires
            self.grid.wf(),
            -127 <= vc.x <= 127,
            -127 <= vc.y <= 127,
        ensures
            final(out)@ == match last_index(self.grid.grid@, d) {
                Some(k) => if d != vc.index {
                    old(out)@.push((d, EdgeCost::Caravan(self.spec_caravan_cost(vc, self.grid.grid@[k]))))
                } else {
                    old(out)@
                },
                None => old(out)@,
            },
    {
        match self.grid.position(d) {
            Some(k) => {
                if d != vc.index {
                    let to = self.grid.grid[k];
                    proof {
                        self.lemma_cell_coordinates(k as int);
                    }
                    out.push((d, EdgeCost::Caravan(self.caravan_cost(&vc, &to))));
                }
            },
            None => {},
        }
    }

    proof fn lemma_cell_coordinates(&self, k: int)
        requires
            self.grid.wf(),
            0 <= k < self.grid.grid@.len(),
        ensures
            -127 <= self.grid.grid@[k].x <= 127,
            -127 <= self.grid.grid@[k].y <= 127,
    {
        reveal(MapGrid::wf);
        let side = self.grid.square_size as int;
        assert(self.grid.grid@[k].x == k % side - side / 2);
        assert(self.grid.grid@[k].y == k / side - side / 2);
        assert(k / side < side) by (nonlinear_arith)
            requires 0 <= k < side * side, side > 0;
    }
}

/// `cells` holds `c`.
fn contains_cell(cells: &Vec<CellIndex>, c: CellIndex) -> (r: bool)
    ensures
        r == cells@.contains(c),
{
    let mut i: usize = 0;
    while i < cells.len()
        invariant
            i <= cells@.len(),
            forall|j: int| 0 <= j < i ==> cells@[j] != c,
        decreases cells@.len() - i,
    {
        if cells[i] == c {
            return true;
        }
        i = i + 1;
    }
    false
}

/// A cost order turned around, so that a max-heap hands out the cheapest path first.
#[derive(Clone, Copy, Debug, PartialEq, Eq, Structural)]
pub struct CheapestFirst(pub CostOrder);

impl Compare<TotalCost> for CheapestFirst {
    open spec fn spec_compare(&self, a: TotalCost, b: TotalCost) -> Ordering {
        self.0.spec_compare(b, a)
    }

    open spec fn callable(&self) -> bool {
        true
    }

    fn compare(&self, a: &TotalCost, b: &TotalCost) -> (r: Ordering) {
        self.0.compare(b, a)
    }
}

pub proof fn lemma_cheapest_first_total(o: CostOrder)
    requires
        o.wf(),
    ensures
        is_total_preorder(CheapestFirst(o)),
{
    let c = CheapestFirst(o);
    assert forall|a: TotalCost, b: TotalCost| #[trigger] c.spec_compare(a, b) == flip(
        c.spec_compare(b, a),
    ) by {
        lemma_cost_order_total(o, b, a, a);
    }
    assert forall|a: TotalCost, b: TotalCost, d: TotalCost| #[trigger]
        crate::binary_heap::below(c, a, b) && #[trigger] crate::binary_heap::below(c, b, d)
            implies crate::binary_heap::below(c, a, d) by {
        lemma_cost_order_total(o, d, b, a);
    }
}

/// The commands start at `from` and each starts where the one before ends.
pub open spec fn path_from(cmds: Seq<Command>, from: CellIndex) -> bool {
    &&& cmds.len() >= 1
    &&& cmds[0].from == from
    &&& forall|i: int| 0 <= i < cmds.len() - 1 ==> #[trigger] cmds[i].to == cmds[i + 1].from
}

/// A hop from where a path ends keeps it a path, now ending where the hop ends.
pub proof fn lemma_extend_path(
    s: Seq<Command>,
    from: CellIndex,
    e: EdgeCost,
    costs: ScrollCosts,
    fleetfoot: Fleetfoot,
    to: CellIndex,
)
    requires
        path_from(s, from),
    ensures
        path_from(spec_extend(s, e, costs, fleetfoot, s.last().to, to), from),
        spec_extend(s, e, costs, fleetfoot, s.last().to, to).last().to == to,
{
    let t = spec_extend(s, e, costs, fleetfoot, s.last().to, to);
    let n = s.len();
    if t.len() == n {
        assert(t =~= s.drop_last().push(t.last()));
        assert(t.last().from == s.last().from);
        assert forall|i: int| 0 <= i < t.len() - 1 implies #[trigger] t[i].to == t[i + 1].from by {
            if i + 1 < n - 1 {
                assert(t[i + 1] == s[i + 1]);
            } else {
                assert(s[i].to == s[i + 1].from);
            }
        }
    } else {
        assert(t =~= s.push(t.last()));
        assert forall|i: int| 0 <= i < t.len() - 1 implies #[trigger] t[i].to == t[i + 1].from by {
            if i + 1 < n {
                assert(t[i + 1] == s[i + 1]);
            }
        }
    }
}

impl<'a> FindPath<'a> {
    proof fn lemma_caravan_edges_len(&self, vc: Cell, dests: Seq<CellIndex>)
        ensures
            self.caravan_edges(vc, dests).len() <= dests.len(),
        decreases dests.len(),
    {
        if dests.len() > 0 {
            self.lemma_caravan_edges_len(vc, dests.drop_last());
        }
    }

    /// There are few moves out of a cell: at most eight beside the caravan rides.
    proof fn lemma_edges_len(&self, v: CellIndex)
        ensures
            self.spec_edges(v).len() <= 8 + self.grid.campfires@.len(),
    {
        let g = self.grid.grid@;
        if let Some(k) = last_index(g, v) {
            self.lemma_caravan_edges_len(g[k], seq![CellIndex::Center] + self.grid.campfires@);
        }
    }
}

/// If `c` has a last place in `g`, that place holds `c`.
pub proof fn lemma_last_index_some(g: Seq<Cell>, c: CellIndex)
    ensures
        last_index(g, c) matches Some(k) ==> 0 <= k < g.len() && g[k].index == c,
    decreases g.len(),
{
    if g.len() > 0 && g.last().index != c {
        lemma_last_index_some(g.drop_last(), c);
    }
}

impl<'a> FindPath<'a> {
    /// A cost that the search may hold: its totals are sums over a path from `from`.
    #[verifier::opaque]
    pub open spec fn reached(&self, t: TotalCost, from: CellIndex) -> bool {
        t.wf() && path_from(t.cmds(), from)
    }

    /// The ranking that `sort_by` names.
    pub open spec fn spec_order(&self) -> CostOrder {
        CostOrder {
            first: self.sort_by.0,
            second: self.sort_by.0.spec_eval_next(self.sort_by.1).0,
            third: self.sort_by.0.spec_eval_next(self.sort_by.1).1,
        }
    }

    /// The itinerary of taking only the `i`-th move out of `from`.
    pub open spec fn single_move(&self, from: CellIndex, i: int) -> Seq<Command> {
        spec_extend(
            standing(from),
            self.spec_edges(from)[i].1,
            self.scroll_costs(),
            self.fleetfoot,
            from,
            self.spec_edges(from)[i].0,
        )
    }

    /// The `i`-th move out of `from` ends on the map and its cost can be added up.
    pub open spec fn single_move_ok(&self, from: CellIndex, i: int) -> bool {
        &&& extend_fits(
            standing(from),
            self.spec_edges(from)[i].1,
            self.scroll_costs(),
            self.fleetfoot,
            from,
            self.spec_edges(from)[i].0,
        )
        &&& last_index(self.grid.grid@, self.spec_edges(from)[i].0) is Some
    }

    /// The itinerary `s` ranks no worse under `o` than any single move from
    /// `from` to `to`.
    pub open spec fn beats_single_moves(&self, o: CostOrder, s: Seq<Command>, from: CellIndex, to: CellIndex) -> bool {
        forall|i: int|
            0 <= i < self.spec_edges(from).len() && #[trigger] self.spec_edges(from)[i].0 == to
                && self.single_move_ok(from, i) ==> lex(o.cmds_key(s), o.cmds_key(self.single_move(from, i)))
                != Ordering::Greater
    }

    /// Some single move leads from `from` to `to`.
    pub open spec fn has_single_move(&self, from: CellIndex, to: CellIndex) -> bool {
        exists|i: int|
            0 <= i < self.spec_edges(from).len() && #[trigger] self.spec_edges(from)[i].0 == to
                && self.single_move_ok(from, i)
    }

    /// The queue holds a path to `to` that no single move from `from` beats.
    pub open spec fn holds_rival(&self, heap: Seq<TotalCost>, o: CostOrder, from: CellIndex, to: CellIndex) -> bool {
        exists|x: TotalCost|
            #[trigger] heap.contains(x) && x.wf() && x.cmds().last().to == to && self.beats_single_moves(
                o,
                x.cmds(),
                from,
                to,
            )
    }

    /// The cheapest path from `from` to `to` under the ranking `sort_by`. A path
    /// that comes back ranks no worse than any single move from `from` to `to`,
    /// and there is one whenever such a move exists. `None` where the search
    /// runs out of paths to try.
    pub fn eval(&self, from: CellIndex, to: CellIndex) -> (r: Option<TotalCost>)
        requires
            self.grid.wf(),
        ensures
            from == to ==> r is Some && r->0.cmds() == standing(from) && r->0.legs == 0
                && r->0.money == 0 && r->0.time.seconds == 0 && r->0.wf(),
            r matches Some(t) ==> t.wf() && path_from(t.cmds(), from) && t.cmds().last().to == to,
            r matches Some(t) ==> (from != to ==> self.beats_single_moves(
                self.spec_order(),
                t.cmds(),
                from,
                to,
            )),
            from.is_canonical() && last_index(self.grid.grid@, from) is Some && self.has_single_move(
                from,
                to,
            ) ==> r is Some,
    {
        let start = TotalCost::new(from);
        if from == to {
            return Some(start);
        }
        let from_pos = match self.grid.position(from) {
            None => {
                return None;
            },
            Some(k) => k,
        };
        if !from.canonical() {
            return None;
        }
        let to_pos = self.grid.position(to);
        let n = self.grid.grid.len();
        let mut dist: Vec<Option<TotalCost>> = Vec::new();
        let mut i: usize = 0;
        while i < n
            invariant
                i <= n,
                dist@.len() == i,
                forall|k: int| 0 <= k < i ==> dist@[k] is None,
            decreases n - i,
        {
            dist.push(None);
            i = i + 1;
        }
        let order = self.sort_by.0.and_then(self.sort_by.1);
        proof {
            lemma_cheapest_first_total(order);
            lemma_last_index_some(self.grid.grid@, to);
            lemma_last_index_some(self.grid.grid@, from);
        }
        let costs = ScrollCosts {
            scroll_of_escape: self.scroll_of_escape_cost,
            scroll_of_escape_hq: self.scroll_of_escape_hq_cost,
            scroll_of_escape_forum: self.scroll_of_escape_forum_cost,
        };
        let mut heap = BinaryHeap::new_by(CheapestFirst(order));
        dist[from_pos] = Some(start.duplicate());
        proof {
            assert(start.cmds()[0].from == from);
            assert(last_index(self.grid.grid@, to) matches Some(k) ==> dist@[k] is None);
            assert(self.reached(start, from)) by {
                reveal(FindPath::reached);
            }
            assert forall|k: int| 0 <= k < n && #[trigger] dist@[k] is Some implies self.reached(dist@[k]->0, from) by {
                reveal(FindPath::reached);
            }
            assert forall|k: int| 0 <= k < n && #[trigger] dist@[k] is Some implies dist@[k]->0.cmds().last().to
                == self.grid.grid@[k].index by {}
            reveal(MapGrid::wf);
            let side = self.grid.square_size as int;
            assert(side * side <= 255 * 255) by (nonlinear_arith)
                requires side <= 255, side >= 0;
            assert((n as u64) * (n as u64 + 32) + 1 <= 65025 * 65057 + 1) by (nonlinear_arith)
                requires n <= 65025;
            self.lemma_edges_len(from);
        }
        if !self.expand(&mut heap, &mut dist, &start, from, order, costs, from, Ghost(to)) {
            return None;
        }
        // Each cell is settled once and then queues at most one path per move
        // out of it (at most n + 8 moves), so n * (n + 32) + 1 rounds are never
        // all used.
        let mut budget: u64 = (n as u64) * (n as u64 + 32) + 1;
        while budget > 0
            invariant
                from != to,
                self.grid.wf(),
                dist@.len() == n,
                n == self.grid.grid@.len(),
                order.wf(),
                order == self.spec_order(),
                heap.wf(),
                heap.comparator() == CheapestFirst(order),
                costs == self.scroll_costs(),
                to_pos matches Some(k) ==> k < n && Some(k as int) == last_index(self.grid.grid@, to)
                    && self.grid.grid@[k as int].index == to,
                to_pos is None ==> last_index(self.grid.grid@, to) is None,
                forall|x: TotalCost| #[trigger] heap@.contains(x) ==> self.reached(x, from),
                forall|k: int| 0 <= k < n && #[trigger] dist@[k] is Some ==> self.reached(dist@[k]->0, from),
                forall|k: int|
                    0 <= k < n && #[trigger] dist@[k] is Some ==> dist@[k]->0.cmds().last().to
                        == self.grid.grid@[k].index,
                to_pos matches Some(k) ==> (dist@[k as int] matches Some(d) ==> self.beats_single_moves(
                    order,
                    d.cmds(),
                    from,
                    to,
                )),
                self.has_single_move(from, to) ==> (to_pos matches Some(k) && dist@[k as int] is Some),
                self.has_single_move(from, to) ==> self.holds_rival(heap@, order, from, to),
            decreases budget,
        {
            budget = budget - 1;
            let ghost before = heap@;
            let cost = match heap.pop() {
                None => {
                    return self.best_known(&dist, to_pos, Ghost(from), Ghost(to), Ghost(order));
                },
                Some(c) => c,
            };
            proof {
                assert(before.contains(before[0]));
                assert forall|x: TotalCost| #[trigger] heap@.contains(x) implies self.reached(x, from) by {
                    assert(heap@.to_multiset().count(x) > 0);
                    assert(before.to_multiset().count(x) > 0);
                }
                assert(cost.wf() && path_from(cost.cmds(), from)) by {
                    reveal(FindPath::reached);
                }
            }
            let cmds = cost.commands();
            let v = cmds[cmds.len() - 1].to;
            if v == to {
                proof {
                    self.lemma_popped_beats(order, before, cost, from, to);
                }
                return Some(cost);
            }
            proof {
                if self.has_single_move(from, to) {
                    let x = choose|x: TotalCost|
                        #[trigger] before.contains(x) && x.wf() && x.cmds().last().to == to
                            && self.beats_single_moves(order, x.cmds(), from, to);
                    assert(x != cost);
                    assert(before.to_multiset().count(x) > 0);
                    assert(heap@.to_multiset().count(x) > 0);
                    assert(heap@.contains(x));
                }
            }
            let vk = match self.grid.position(v) {
                None => {
                    continue;
                },
                Some(k) => k,
            };
            let stale = match &dist[vk] {
                Some(d) => match order.compare(&cost, d) {
                    Ordering::Greater => true,
                    _ => false,
                },
                None => false,
            };
            if stale || !v.canonical() {
                continue;
            }
            let ghost mid = heap@;
            let ghost mid_dist = dist@;
            let expanded = self.expand(&mut heap, &mut dist, &cost, v, order, costs, from, Ghost(to));
            proof {
                if self.has_single_move(from, to) {
                    let x = choose|x: TotalCost|
                        #[trigger] mid.contains(x) && x.wf() && x.cmds().last().to == to
                            && self.beats_single_moves(order, x.cmds(), from, to);
                    assert(heap@.contains(x));
                }
                if let Some(k) = to_pos {
                    if let Some(d0) = mid_dist[k as int] {
                        let d1 = dist@[k as int]->0;
                        assert forall|i: int|
                            0 <= i < self.spec_edges(from).len() && #[trigger] self.spec_edges(from)[i].0 == to
                                && self.single_move_ok(from, i) implies lex(
                            order.cmds_key(d1.cmds()),
                            order.cmds_key(self.single_move(from, i)),
                        ) != Ordering::Greater by {
                            crate::order::lemma_lex_trans(
                                order.cmds_key(d1.cmds()),
                                order.cmds_key(d0.cmds()),
                                order.cmds_key(self.single_move(from, i)),
                            );
                        }
                    }
                }
            }
            if !expanded {
                return self.best_known(&dist, to_pos, Ghost(from), Ghost(to), Ghost(order));
            }
        }
        self.best_known(&dist, to_pos, Ghost(from), Ghost(to), Ghost(order))
    }

    /// A popped path to `to` ranks no worse than any single move, given a queued
    /// rival that does.
    proof fn lemma_popped_beats(&self, order: CostOrder, before: Seq<TotalCost>, cost: TotalCost, from: CellIndex, to: CellIndex)
        requires
            order.wf(),
            before.len() > 0,
            cost == before[0],
            cost.wf(),
            forall|i: int| 0 <= i < before.len() ==> crate::binary_heap::below(CheapestFirst(order), before[i], cost),
            self.has_single_move(from, to) ==> self.holds_rival(before, order, from, to),
        ensures
            self.beats_single_moves(order, cost.cmds(), from, to),
    {
        if self.has_single_move(from, to) {
            let x = choose|x: TotalCost|
                #[trigger] before.contains(x) && x.wf() && x.cmds().last().to == to
                    && self.beats_single_moves(order, x.cmds(), from, to);
            let k = choose|k: int| 0 <= k < before.len() && before[k] == x;
            assert(crate::binary_heap::below(CheapestFirst(order), before[k], cost));
            lemma_key_of_sums(order, cost);
            lemma_key_of_sums(order, x);
            assert forall|i: int|
                0 <= i < self.spec_edges(from).len() && #[trigger] self.spec_edges(from)[i].0 == to
                    && self.single_move_ok(from, i) implies lex(
                order.cmds_key(cost.cmds()),
                order.cmds_key(self.single_move(from, i)),
            ) != Ordering::Greater by {
                crate::order::lemma_lex_trans(
                    order.cmds_key(cost.cmds()),
                    order.cmds_key(x.cmds()),
                    order.cmds_key(self.single_move(from, i)),
                );
            }
        } else {
            assert forall|i: int|
                0 <= i < self.spec_edges(from).len() && #[trigger] self.spec_edges(from)[i].0 == to
                    && self.single_move_ok(from, i) implies false by {}
        }
    }

    /// The best path to `to` found so far, if any.
    fn best_known(
        &self,
        dist: &Vec<Option<TotalCost>>,
        to_pos: Option<usize>,
        Ghost(from): Ghost<CellIndex>,
        Ghost(to): Ghost<CellIndex>,
        Ghost(order): Ghost<CostOrder>,
    ) -> (r: Option<TotalCost>)
        requires
            dist@.len() == self.grid.grid@.len(),
            to_pos matches Some(k) ==> k < dist@.len() && self.grid.grid@[k as int].index == to,
            forall|k: int| 0 <= k < dist@.len() && #[trigger] dist@[k] is Some ==> self.reached(dist@[k]->0, from),
            forall|k: int|
                0 <= k < dist@.len() && #[trigger] dist@[k] is Some ==> dist@[k]->0.cmds().last().to
                    == self.grid.grid@[k].index,
            to_pos matches Some(k) ==> (dist@[k as int] matches Some(d) ==> self.beats_single_moves(
                order,
                d.cmds(),
                from,
                to,
            )),
        ensures
            r matches Some(t) ==> t.wf() && path_from(t.cmds(), from) && t.cmds().last().to == to
                && self.beats_single_moves(order, t.cmds(), from, to),
            (to_pos matches Some(k) && dist@[k as int] is Some) ==> r is Some,
    {
        match to_pos {
            Some(k) => match &dist[k] {
                Some(d) => {
                    proof {
                        assert(d.wf() && path_from(d.cmds(), from)) by {
                            reveal(FindPath::reached);
                        }
                    }
                    Some(d.duplicate())
                },
                None => None,
            },
            None => None,
        }
    }

    /// Tries every move out of `v`, where the path `cost` ends. `false` where the
    /// queue is full. Starting from `from` with nothing yet known of `to`, it
    /// leaves queued a path to `to` that no single move beats.
    fn expand(
        &self,
        heap: &mut BinaryHeap<TotalCost, CheapestFirst>,
        dist: &mut Vec<Option<TotalCost>>,
        cost: &TotalCost,
        v: CellIndex,
        order: CostOrder,
        costs: ScrollCosts,
        from: CellIndex,
        Ghost(to): Ghost<CellIndex>,
    ) -> (r: bool)
        requires
            self.grid.wf(),
            v.is_canonical(),
            order.wf(),
            costs == self.scroll_costs(),
            old(dist)@.len() == self.grid.grid@.len(),
            old(heap).wf(),
            old(heap).comparator() == CheapestFirst(order),
            self.reached(*cost, from),
            v == cost.cmds().last().to,
            forall|x: TotalCost| #[trigger] old(heap)@.contains(x) ==> self.reached(x, from),
            forall|k: int|
                0 <= k < old(dist)@.len() && #[trigger] old(dist)@[k] is Some ==> self.reached(
                    old(dist)@[k]->0,
                    from,
                ),
            forall|k: int|
                0 <= k < old(dist)@.len() && #[trigger] old(dist)@[k] is Some ==> old(dist)@[k]->0.cmds().last().to
                    == self.grid.grid@[k].index,
        ensures
            final(dist)@.len() == old(dist)@.len(),
            final(heap).wf(),
            final(heap).comparator() == CheapestFirst(order),
            forall|x: TotalCost| #[trigger] final(heap)@.contains(x) ==> self.reached(x, from),
            forall|x: TotalCost| #[trigger] old(heap)@.contains(x) ==> final(heap)@.contains(x),
            forall|k: int|
                0 <= k < final(dist)@.len() && #[trigger] final(dist)@[k] is Some ==> self.reached(
                    final(dist)@[k]->0,
                    from,
                ),
            forall|k: int|
                0 <= k < final(dist)@.len() && #[trigger] final(dist)@[k] is Some ==> final(dist)@[k]->0.cmds().last().to
                    == self.grid.grid@[k].index,
            forall|k: int|
                0 <= k < old(dist)@.len() && #[trigger] old(dist)@[k] is Some ==> final(dist)@[k] is Some && lex(
                    order.cmds_key(final(dist)@[k]->0.cmds()),
                    order.cmds_key(old(dist)@[k]->0.cmds()),
                ) != Ordering::Greater,
            final(heap)@.len() <= old(heap)@.len() + self.spec_edges(v).len(),
            !r ==> old(heap)@.len() + self.spec_edges(v).len() + 2 >= usize::MAX / 2,
            r && v == from && cost.cmds() == standing(from) && (last_index(self.grid.grid@, to) matches Some(
                k,
            ) ==> old(dist)@[k] is None) ==> (last_index(self.grid.grid@, to) matches Some(k) ==> (
            final(dist)@[k] matches Some(d) ==> self.beats_single_moves(order, d.cmds(), from, to))),
            r && v == from && cost.cmds() == standing(from) && (last_index(self.grid.grid@, to) matches Some(
                k,
            ) ==> old(dist)@[k] is None) && self.has_single_move(from, to) ==> (last_index(
                self.grid.grid@,
                to,
            ) matches Some(k) && final(dist)@[k] is Some),
            r && v == from && cost.cmds() == standing(from) && (last_index(self.grid.grid@, to) matches Some(
                k,
            ) ==> old(dist)@[k] is None) && self.has_single_move(from, to) ==> self.holds_rival(
                final(heap)@,
                order,
                from,
                to,
            ),
    {
        let edges = self.edges(v);
        let ghost first = v == from && cost.cmds() == standing(from) && (last_index(self.grid.grid@, to) matches Some(k) ==> old(dist)@[k] is None);
        let ghost tk = last_index(self.grid.grid@, to);
        proof {
            lemma_last_index_some(self.grid.grid@, to);
        }
        let mut j: usize = 0;
        proof {
            assert forall|k: int| 0 <= k < old(dist)@.len() && #[trigger] old(dist)@[k] is Some implies lex(
                order.cmds_key(old(dist)@[k]->0.cmds()),
                order.cmds_key(old(dist)@[k]->0.cmds()),
            ) == Ordering::Equal by {
                lemma_lex_self(order.cmds_key(old(dist)@[k]->0.cmds()));
            }
        }
        while j < edges.len()
            invariant
                j <= edges@.len(),
                edges@ == self.spec_edges(v),
                order.wf(),
                costs == self.scroll_costs(),
                dist@.len() == self.grid.grid@.len(),
                dist@.len() == old(dist)@.len(),
                heap.wf(),
                heap.comparator() == CheapestFirst(order),
                self.reached(*cost, from),
                v == cost.cmds().last().to,
                tk == last_index(self.grid.grid@, to),
                tk matches Some(k) ==> 0 <= k < self.grid.grid@.len() && self.grid.grid@[k].index == to,
                forall|x: TotalCost| #[trigger] heap@.contains(x) ==> self.reached(x, from),
                forall|x: TotalCost| #[trigger] old(heap)@.contains(x) ==> heap@.contains(x),
                forall|k: int| 0 <= k < dist@.len() && #[trigger] dist@[k] is Some ==> self.reached(dist@[k]->0, from),
                forall|k: int|
                    0 <= k < dist@.len() && #[trigger] dist@[k] is Some ==> dist@[k]->0.cmds().last().to
                        == self.grid.grid@[k].index,
                forall|k: int|
                    0 <= k < old(dist)@.len() && #[trigger] old(dist)@[k] is Some ==> dist@[k] is Some && lex(
                        order.cmds_key(dist@[k]->0.cmds()),
                        order.cmds_key(old(dist)@[k]->0.cmds()),
                    ) != Ordering::Greater,
                heap@.len() <= old(heap)@.len() + j,
                first ==> v == from && cost.cmds() == standing(from),
                first ==> (tk matches Some(k) ==> (dist@[k] matches Some(d) ==> d.cmds().last().to == to
                    && exists|x: TotalCost| #[trigger] heap@.contains(x) && x.wf() && x.cmds() == d.cmds())),
                first ==> forall|i: int|
                    0 <= i < j && #[trigger] edges@[i].0 == to && self.single_move_ok(from, i) ==> (tk matches Some(k)
                        && dist@[k] matches Some(d) && lex(order.cmds_key(d.cmds()), order.cmds_key(self.single_move(from, i)))
                        != Ordering::Greater),
            decreases edges@.len() - j,
        {
            let (w, e) = edges[j];
            let ghost before_dist = dist@;
            let ok = self.relax(heap, dist, cost, v, w, e, order, costs, from);
            if !ok {
                return false;
            }
            proof {
                lemma_last_index_some(self.grid.grid@, w);
                assert forall|k: int|
                    0 <= k < dist@.len() && #[trigger] dist@[k] is Some implies dist@[k]->0.cmds().last().to
                        == self.grid.grid@[k].index by {
                    if Some(k) != last_index(self.grid.grid@, w) {
                        assert(dist@[k] == before_dist[k]);
                    }
                }
                assert forall|k: int|
                    0 <= k < old(dist)@.len() && #[trigger] old(dist)@[k] is Some implies dist@[k] is Some && lex(
                        order.cmds_key(dist@[k]->0.cmds()),
                        order.cmds_key(old(dist)@[k]->0.cmds()),
                    ) != Ordering::Greater by {
                    if Some(k) != last_index(self.grid.grid@, w) {
                        assert(dist@[k] == before_dist[k]);
                    } else {
                        crate::order::lemma_lex_trans(
                            order.cmds_key(dist@[k]->0.cmds()),
                            order.cmds_key(before_dist[k]->0.cmds()),
                            order.cmds_key(old(dist)@[k]->0.cmds()),
                        );
                    }
                }
                if first {
                    if let Some(k) = tk {
                        if w != to {
                            assert(last_index(self.grid.grid@, w) != Some(k));
                            assert(dist@[k] == before_dist[k]);
                        }
                        assert forall|i: int|
                            0 <= i < j + 1 && #[trigger] edges@[i].0 == to && self.single_move_ok(from, i) implies (
                            dist@[k] matches Some(d) && lex(order.cmds_key(d.cmds()), order.cmds_key(self.single_move(from, i)))
                            != Ordering::Greater) by {
                            if i < j {
                                if w == to {
                                    let d0 = before_dist[k]->0;
                                    let d1 = dist@[k]->0;
                                    crate::order::lemma_lex_trans(
                                        order.cmds_key(d1.cmds()),
                                        order.cmds_key(d0.cmds()),
                                        order.cmds_key(self.single_move(from, i)),
                                    );
                                }
                            }
                        }
                    }
                }
            }
            j = j + 1;
        }
        proof {
            if first {
                if let Some(k) = tk {
                    if let Some(d) = dist@[k] {
                        assert forall|i: int|
                            0 <= i < self.spec_edges(from).len() && #[trigger] self.spec_edges(from)[i].0 == to
                                && self.single_move_ok(from, i) implies lex(
                            order.cmds_key(d.cmds()),
                            order.cmds_key(self.single_move(from, i)),
                        ) != Ordering::Greater by {
                            assert(edges@[i].0 == to);
                        }
                    }
                }
            }
            if first && self.has_single_move(from, to) {
                let i = choose|i: int|
                    0 <= i < self.spec_edges(from).len() && #[trigger] self.spec_edges(from)[i].0 == to
                        && self.single_move_ok(from, i);
                assert(edges@[i].0 == to);
                let k = tk->0;
                let d = dist@[k]->0;
                let x = choose|x: TotalCost| #[trigger] heap@.contains(x) && x.wf() && x.cmds() == d.cmds();
                assert(self.beats_single_moves(order, x.cmds(), from, to));
            }
        }
        true
    }

    /// Tries the move `e` from `v` to `w` after the path `cost`: where it gives
    /// `w` a better cost than known, records it and queues it. `false` where the
    /// queue is full.
    fn relax(
        &self,
        heap: &mut BinaryHeap<TotalCost, CheapestFirst>,
        dist: &mut Vec<Option<TotalCost>>,
        cost: &TotalCost,
        v: CellIndex,
        w: CellIndex,
        e: EdgeCost,
        order: CostOrder,
        costs: ScrollCosts,
        from: CellIndex,
    ) -> (r: bool)
        requires
            order.wf(),
            old(dist)@.len() == self.grid.grid@.len(),
            old(heap).wf(),
            old(heap).comparator() == CheapestFirst(order),
            self.reached(*cost, from),
            v == cost.cmds().last().to,
            forall|x: TotalCost| #[trigger] old(heap)@.contains(x) ==> self.reached(x, from),
            forall|k: int|
                0 <= k < old(dist)@.len() && #[trigger] old(dist)@[k] is Some ==> self.reached(
                    old(dist)@[k]->0,
                    from,
                ),
        ensures
            final(dist)@.len() == old(dist)@.len(),
            final(heap).wf(),
            final(heap).comparator() == CheapestFirst(order),
            forall|x: TotalCost| #[trigger] final(heap)@.contains(x) ==> self.reached(x, from),
            forall|x: TotalCost| #[trigger] old(heap)@.contains(x) ==> final(heap)@.contains(x),
            final(heap)@.len() <= old(heap)@.len() + 1,
            !r ==> old(heap)@.len() + 2 >= usize::MAX / 2 && final(dist)@ == old(dist)@,
            forall|k: int|
                0 <= k < final(dist)@.len() && #[trigger] final(dist)@[k] is Some ==> self.reached(
                    final(dist)@[k]->0,
                    from,
                ),
            forall|k: int|
                0 <= k < old(dist)@.len() && Some(k) != last_index(self.grid.grid@, w)
                    ==> #[trigger] final(dist)@[k] == old(dist)@[k],
            last_index(self.grid.grid@, w) matches Some(k) ==> (final(dist)@[k] != old(dist)@[k] ==> (
            final(dist)@[k] matches Some(d) && d.cmds().last().to == w && exists|x: TotalCost|
                #[trigger] final(heap)@.contains(x) && x.wf() && x.cmds() == d.cmds())),
            last_index(self.grid.grid@, w) matches Some(k) ==> (old(dist)@[k] matches Some(od) ==> (
            final(dist)@[k] matches Some(d) && lex(order.cmds_key(d.cmds()), order.cmds_key(od.cmds()))
                != Ordering::Greater)),
            r && extend_fits(cost.cmds(), e, costs, self.fleetfoot, v, w) ==> (last_index(
                self.grid.grid@,
                w,
            ) matches Some(k) ==> (final(dist)@[k] matches Some(d) && lex(
                order.cmds_key(d.cmds()),
                order.cmds_key(spec_extend(cost.cmds(), e, costs, self.fleetfoot, v, w)),
            ) != Ordering::Greater)),
    {
        proof {
            lemma_last_index_some(self.grid.grid@, w);
            if let Some(k) = last_index(self.grid.grid@, w) {
                if let Some(od) = dist@[k] {
                    lemma_lex_self(order.cmds_key(od.cmds()));
                }
            }
        }
        let (next, wk) = match self.candidate(cost, v, w, e, order, costs, from) {
            None => {
                return true;
            },
            Some(p) => p,
        };
        let better = match &dist[wk] {
            None => true,
            Some(d) => match order.compare(&next, d) {
                Ordering::Less => true,
                _ => false,
            },
        };
        let ghost old_d = dist@[wk as int];
        proof {
            if let Some(od) = old_d {
                assert(od.wf()) by {
                    reveal(FindPath::reached);
                }
            }
            assert(next.wf()) by {
                reveal(FindPath::reached);
            }
            lemma_relax_order(order, next, old_d, better);
        }
        if better {
            if heap.len() + 2 >= usize::MAX / 2 {
                return false;
            }
            let dup = next.duplicate();
            proof {
                assert(self.reached(dup, from)) by {
                    reveal(FindPath::reached);
                }
            }
            dist[wk] = Some(dup);
            let ghost before = heap@;
            let ghost pushed = next;
            heap.push(next);
            proof {
                assert(heap@.to_multiset().count(pushed) > 0);
                assert(heap@.contains(pushed));
                assert(pushed.wf()) by {
                    reveal(FindPath::reached);
                }
                assert forall|x: TotalCost| #[trigger] heap@.contains(x) implies self.reached(x, from) by {
                    assert(heap@.to_multiset().count(x) > 0);
                    if x != next {
                        assert(before.to_multiset().count(x) > 0);
                    }
                }
                assert forall|x: TotalCost| #[trigger] before.contains(x) implies heap@.contains(x) by {
                    assert(before.to_multiset().count(x) > 0);
                    assert(heap@.to_multiset().count(x) > 0);
                }
                assert(heap@.to_multiset().count(next) > 0);
            }
        }
        true
    }

    /// The path `cost` extended by the move `e` from `v` to `w`, with the place
    /// of `w` on the map; `None` where the totals would not fit or `w` is not
    /// on the map.
    fn candidate(
        &self,
        cost: &TotalCost,
        v: CellIndex,
        w: CellIndex,
        e: EdgeCost,
        order: CostOrder,
        costs: ScrollCosts,
        from: CellIndex,
    ) -> (r: Option<(TotalCost, usize)>)
        requires
            self.reached(*cost, from),
            v == cost.cmds().last().to,
        ensures
            r is Some <==> extend_fits(cost.cmds(), e, costs, self.fleetfoot, v, w) && last_index(
                self.grid.grid@,
                w,
            ) is Some,
            r matches Some((next, k)) ==> self.reached(next, from) && next.cmds().last().to == w
                && Some(k as int) == last_index(self.grid.grid@, w) && next.cmds() == spec_extend(
                cost.cmds(),
                e,
                costs,
                self.fleetfoot,
                v,
                w,
            ) && order.key(next) == order.cmds_key(next.cmds()),
    {
        let next = match cost.checked_add(e, costs, self.fleetfoot, v, w) {
            None => {
                return None;
            },
            Some(t) => t,
        };
        proof {
            reveal(FindPath::reached);
            lemma_extend_path(cost.cmds(), from, e, costs, self.fleetfoot, w);
            lemma_key_of_sums(order, next);
        }
        match self.grid.position(w) {
            None => None,
            Some(k) => Some((next, k)),
        }
    }
}

/// What a relaxation step learns from comparing the new path with the known one.
proof fn lemma_relax_order(o: CostOrder, next: TotalCost, old_d: Option<TotalCost>, better: bool)
    requires
        o.wf(),
        next.wf(),
        o.key(next) == o.cmds_key(next.cmds()),
        old_d matches Some(od) ==> od.wf() && (better <==> o.spec_compare(next, od) == Ordering::Less),
        old_d is None ==> better,
    ensures
        lex(o.cmds_key(next.cmds()), o.cmds_key(next.cmds())) == Ordering::Equal,
        old_d matches Some(od) ==> (better ==> lex(o.cmds_key(next.cmds()), o.cmds_key(od.cmds()))
            != Ordering::Greater),
        old_d matches Some(od) ==> (!better ==> lex(o.cmds_key(od.cmds()), o.cmds_key(next.cmds()))
            != Ordering::Greater),
        old_d matches Some(od) ==> lex(o.cmds_key(od.cmds()), o.cmds_key(od.cmds())) == Ordering::Equal,
{
    lemma_lex_self(o.cmds_key(next.cmds()));
    if let Some(od) = old_d {
        lemma_key_of_sums(o, od);
        crate::order::lemma_lex_flip(o.key(next), o.key(od));
        lemma_lex_self(o.cmds_key(od.cmds()));
    }
}

/// A sequence ranks the same as itself.
proof fn lemma_lex_self(a: Seq<int>)
    ensures
        lex(a, a) == Ordering::Equal,
{
    crate::order::lemma_lex_equal(a, a);
}

/// Steps from the center along the grid: 0 for the center, the shift on a
/// border, x + y inside a homeland.
pub open spec fn rank(v: CellIndex) -> nat {
    match v {
        CellIndex::Center => 0,
        CellIndex::Border { shift, .. } => shift as nat,
        CellIndex::Homeland { pos, .. } => (pos.x + pos.y) as nat,
    }
}

/// `v` is a canonical cell of a map whose homelands have side `n`.
pub open spec fn on_map(v: CellIndex, n: nat) -> bool {
    &&& v.is_canonical()
    &&& match v {
        CellIndex::Center => true,
        CellIndex::Border { shift, .. } => shift <= n,
        CellIndex::Homeland { pos, .. } => pos.x <= n && pos.y <= n,
    }
}

/// The grid moves alone connect the map: every cell but the center has a move
/// to a cell of the map nearer the center, and is reached by a move from one.
pub proof fn lemma_grid_connected(v: CellIndex, n: nat)
    requires
        on_map(v, n),
        v != CellIndex::Center,
        n <= 127,
    ensures
        exists|i: int|
            0 <= i < base_edges(v, n).len() && on_map(#[trigger] base_edges(v, n)[i].0, n) && rank(
                base_edges(v, n)[i].0,
            ) < rank(v),
        exists|u: CellIndex, i: int|
            on_map(u, n) && rank(u) < rank(v) && 0 <= i < base_edges(u, n).len()
                && #[trigger] base_edges(u, n)[i].0 == v,
{
    match v {
        CellIndex::Border { border, shift } => {
            let e = base_edges(v, n);
            assert(on_map(e[0].0, n) && rank(e[0].0) < rank(v));
            if shift == 1 {
                let u = CellIndex::Center;
                let i = border.ord() as int;
                assert(base_edges(u, n)[i].0 == v);
            } else {
                let u = CellIndex::Border { border, shift: (shift - 1) as u8 };
                assert(base_edges(u, n)[1].0 == v);
            }
        },
        CellIndex::Homeland { homeland, pos } => {
            let e = base_edges(v, n);
            assert(on_map(e[0].0, n) && rank(e[0].0) < rank(v));
            if pos.x > 1 {
                let u = CellIndex::Homeland { homeland, pos: Pos { x: (pos.x - 1) as u8, y: pos.y } };
                assert(base_edges(u, n)[2].0 == v);
            } else {
                let b = homeland.spec_neighbour(BorderDirection::Vertical);
                let u = CellIndex::Border { border: b, shift: pos.y };
                let eu = base_edges(u, n);
                if b.spec_neighbours().0 == homeland {
                    assert(eu[eu.len() - 2].0 == v);
                } else {
                    assert(eu[eu.len() - 1].0 == v);
                }
            }
        },
        CellIndex::Center => {},
    }
}

} // verus!
