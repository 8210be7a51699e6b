use marshrutka::cost::{AggregatedCost, CaravanCost, EdgeCost};
use marshrutka::duration::Duration;
use marshrutka::grid::{GridError, MapGrid, RawCell};
use marshrutka::homeland::Homeland;
use marshrutka::index::{Border, CellIndex, Pos};
use marshrutka::order::CostComparator;
use marshrutka::pathfinder::FindPath;
use marshrutka::skill::{Fleetfoot, RouteGuru};

fn homeland(h: Homeland, x: u8, y: u8) -> CellIndex {
    CellIndex::Homeland { homeland: h, pos: Pos { x, y } }
}

/// The labels of the cell at column `gx`, row `gy` of a map laid out with Blue
/// up left, Red up right, Green down right and Yellow down left.
fn labels(gx: i32, gy: i32) -> (Option<String>, Option<String>) {
    let ax = gx.unsigned_abs();
    let ay = gy.unsigned_abs();
    if gx == 0 && gy == 0 {
        (None, Some("0#0".to_string()))
    } else if gx == 0 {
        let code = if gy < 0 { "BR" } else { "GY" };
        (Some(code.to_string()), Some(ay.to_string()))
    } else if gy == 0 {
        let code = if gx < 0 { "YB" } else { "RG" };
        (Some(code.to_string()), Some(ax.to_string()))
    } else {
        let letter = match (gx < 0, gy < 0) {
            (true, true) => "B",
            (false, true) => "R",
            (false, false) => "G",
            (true, false) => "Y",
        };
        (Some(letter.to_string()), Some(format!("{}#{}", ay, ax)))
    }
}

/// A square map with homelands of side `n` and campfires on the given cells.
fn map(n: i32, campfires: &[CellIndex]) -> MapGrid {
    let mut cells = Vec::new();
    for gy in -n..=n {
        for gx in -n..=n {
            let (bottom_right, top_right) = labels(gx, gy);
            let index = CellIndex::from_parts(bottom_right.as_deref(), top_right.as_deref()).unwrap();
            let center = if campfires.contains(&index) { Some("\u{1f525}".to_string()) } else { None };
            cells.push(RawCell { bottom_right, top_right, center });
        }
    }
    MapGrid::from_cells(&cells).unwrap()
}

fn settings(grid: &MapGrid) -> FindPath<'_> {
    FindPath {
        scroll_of_escape_cost: 3,
        scroll_of_escape_hq_cost: 5,
        scroll_of_escape_forum_cost: 4,
        use_soe: false,
        use_sfm: false,
        use_caravans: false,
        hq_position: None,
        route_guru: RouteGuru(0),
        fleetfoot: Fleetfoot(0),
        sort_by: (CostComparator::Legs, CostComparator::Time),
        homeland: Homeland::Blue,
        grid,
    }
}

#[test]
fn trivial_path_costs_nothing() {
    let grid = map(2, &[homeland(Homeland::Blue, 2, 2)]);
    let mut s = settings(&grid);
    s.use_soe = true;
    s.use_sfm = true;
    s.use_caravans = true;
    s.hq_position = Some(CellIndex::Center);
    for c in [CellIndex::Center, homeland(Homeland::Blue, 2, 2), CellIndex::Border { border: Border::RG, shift: 1 }] {
        let t = s.eval(c, c).unwrap();
        assert_eq!((t.legs, t.money, t.time), (0, 0, Duration::zero()));
        assert_eq!(t.commands().len(), 1);
        assert_eq!(t.commands()[0].aggregated_cost, AggregatedCost::NoMove);
    }
}

#[test]
fn distances_on_a_thirteen_by_thirteen_map() {
    let grid = map(6, &[]);
    assert_eq!(grid.square_size, 13);
    assert_eq!(grid.homeland_size(), 6);
    let at = |c: CellIndex| grid.grid[grid.position(c).unwrap()];
    let a = at(homeland(Homeland::Blue, 3, 4));
    let b = at(homeland(Homeland::Red, 2, 5));
    assert_eq!(a.distance(&b), 10);
    let g = at(homeland(Homeland::Green, 6, 6));
    assert_eq!(g.distance(&at(CellIndex::Center)), 12);
    let y = at(homeland(Homeland::Yellow, 1, 1));
    assert_eq!(y.distance(&at(CellIndex::Border { border: Border::YB, shift: 3 })), 3);
}

#[test]
fn walk_to_the_center() {
    let grid = map(2, &[]);
    let s = settings(&grid);
    let t = s.eval(homeland(Homeland::Blue, 2, 2), CellIndex::Center).unwrap();
    assert_eq!(t.legs, 3);
    assert_eq!(t.money, 0);
    assert_eq!(t.time, Duration::seconds(550));
    let c = t.commands();
    assert_eq!(c.len(), 2);
    assert_eq!(
        c[0].aggregated_cost,
        AggregatedCost::StandardMove { time: Duration::seconds(540), legs: 3, fleetfoot: Fleetfoot(0) }
    );
    assert_eq!(c[0].from, homeland(Homeland::Blue, 2, 2));
    assert_eq!(c[0].to, CellIndex::Border { border: Border::BR, shift: 1 });
    assert_eq!(c[1].aggregated_cost, AggregatedCost::CentralMove { time: Duration::seconds(10) });
    assert_eq!(c[1].to, CellIndex::Center);
}

#[test]
fn every_cell_reaches_every_cell() {
    let grid = map(2, &[]);
    let s = settings(&grid);
    let cells: Vec<CellIndex> = grid.grid.iter().map(|c| c.index).collect();
    for &a in &cells {
        for &b in &cells {
            let t = s.eval(a, b).unwrap();
            let c = t.commands();
            assert_eq!(c[0].from, a);
            assert_eq!(c[c.len() - 1].to, b);
        }
    }
}

#[test]
fn scroll_of_escape_reaches_the_home_campfire() {
    let fire = homeland(Homeland::Blue, 6, 6);
    let grid = map(6, &[fire]);
    let mut s = settings(&grid);
    s.use_soe = true;
    let t = s.eval(homeland(Homeland::Red, 6, 6), fire).unwrap();
    assert_eq!((t.legs, t.money, t.time), (0, 3, Duration::zero()));
    assert_eq!(t.commands().len(), 1);
    assert_eq!(t.commands()[0].aggregated_cost, AggregatedCost::ScrollOfEscape { money: 3 });
}

#[test]
fn caravan_saves_legs() {
    let fire = homeland(Homeland::Green, 3, 3);
    let grid = map(6, &[fire, homeland(Homeland::Blue, 6, 6)]);
    let mut s = settings(&grid);
    s.use_caravans = true;
    let t = s.eval(CellIndex::Center, fire).unwrap();
    assert_eq!(t.legs, 0);
    assert_eq!(
        t.commands()[0].aggregated_cost,
        AggregatedCost::Caravan(CaravanCost { time: Duration::seconds(1440), money: 30 })
    );
    s.route_guru = RouteGuru(1);
    let t = s.eval(CellIndex::Center, fire).unwrap();
    assert_eq!(t.time, Duration::seconds(1140));
    s.sort_by = (CostComparator::Money, CostComparator::Time);
    let t = s.eval(CellIndex::Center, fire).unwrap();
    assert_eq!(t.money, 0);
    assert_eq!(t.legs, 5);
}

#[test]
fn edges_of_the_center_and_a_border() {
    let grid = map(2, &[]);
    let s = settings(&grid);
    let e = s.edges(CellIndex::Center);
    assert_eq!(e.len(), 4);
    assert!(e.iter().all(|(_, c)| *c == EdgeCost::CentralMove));
    let e = s.edges(CellIndex::Border { border: Border::BR, shift: 2 });
    assert_eq!(
        e,
        vec![
            (CellIndex::Border { border: Border::BR, shift: 1 }, EdgeCost::StandardMove),
            (homeland(Homeland::Blue, 2, 1), EdgeCost::StandardMove),
            (homeland(Homeland::Red, 2, 1), EdgeCost::StandardMove),
        ]
    );
    let mut s = settings(&grid);
    s.use_sfm = true;
    s.hq_position = Some(homeland(Homeland::Red, 1, 1));
    let e = s.edges(homeland(Homeland::Blue, 1, 1));
    assert_eq!(e.len(), 6);
    assert_eq!(e[4], (homeland(Homeland::Red, 1, 1), EdgeCost::ScrollOfEscapeHQ));
    assert_eq!(e[5], (CellIndex::Center, EdgeCost::ScrollOfEscapeForum));
}

#[test]
fn nearest_campfires_are_tabled() {
    let near = homeland(Homeland::Blue, 1, 1);
    let far = homeland(Homeland::Blue, 6, 6);
    let grid = map(6, &[near, far]);
    let at = |c: CellIndex| grid.grid[grid.position(c).unwrap()];
    assert_eq!(at(homeland(Homeland::Blue, 5, 6)).nearest_campfire[0], Some(far));
    assert_eq!(at(CellIndex::Center).nearest_campfire[0], Some(near));
    assert_eq!(at(homeland(Homeland::Green, 6, 6)).nearest_campfire[0], Some(near));
    assert_eq!(at(homeland(Homeland::Blue, 1, 1)).nearest_campfire[0], Some(near));
    assert_eq!(at(homeland(Homeland::Blue, 1, 1)).nearest_campfire[1], None);
}

#[test]
fn malformed_maps_are_refused() {
    let cell = |a: &str, b: &str| RawCell {
        bottom_right: if a.is_empty() { None } else { Some(a.to_string()) },
        top_right: Some(b.to_string()),
        center: None,
    };
    let three: Vec<RawCell> = (0..3).map(|_| cell("", "0#0")).collect();
    assert_eq!(MapGrid::from_cells(&three).err(), Some(GridError::NotSquare(3)));
    let four: Vec<RawCell> = (0..4).map(|_| cell("", "0#0")).collect();
    assert_eq!(MapGrid::from_cells(&four).err(), Some(GridError::EvenSide(2)));
    let bad = vec![cell("Q", "1#1")];
    assert_eq!(MapGrid::from_cells(&bad).err(), Some(GridError::CannotIndex(0)));
    let lonely = vec![cell("B", "1#1")];
    assert_eq!(MapGrid::from_cells(&lonely).err(), Some(GridError::CenterNotFound));
    let mut shifted: Vec<RawCell> = (0..9).map(|_| cell("B", "1#1")).collect();
    shifted[0] = cell("", "0#0");
    assert_eq!(MapGrid::from_cells(&shifted).err(), Some(GridError::UnexpectedCenter(-1, -1)));
}

#[test]
fn a_cell_off_the_map_is_unreachable() {
    let grid = map(2, &[]);
    let s = settings(&grid);
    assert!(s.eval(CellIndex::Center, homeland(Homeland::Blue, 3, 3)).is_none());
    assert!(s.eval(CellIndex::Center, CellIndex::Border { border: Border::GY, shift: 3 }).is_none());
}
