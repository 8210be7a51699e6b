use marshrutka::cost::{AggregatedCost, CaravanCost, Command, EdgeCost, ScrollCosts, TotalCost};
use marshrutka::duration::Duration;
use marshrutka::homeland::Homeland;
use marshrutka::index::{Border, CellIndex, Pos};
use marshrutka::order::CostComparator;
use marshrutka::skill::{Fleetfoot, RouteGuru, Skill};
use std::cmp::Ordering;

const COSTS: ScrollCosts = ScrollCosts {
    scroll_of_escape: 7,
    scroll_of_escape_hq: 11,
    scroll_of_escape_forum: 13,
};

fn cell(x: u8, y: u8) -> CellIndex {
    CellIndex::Homeland { homeland: Homeland::Blue, pos: Pos { x, y } }
}

#[test]
fn time_as_str() {
    let m = Duration::minutes(63);
    let s = Duration::seconds(10);
    let ms = m.plus(s);
    assert_eq!(ms.to_string(), "1h3m10s");
}

#[test]
fn duration_text_forms() {
    assert_eq!(Duration::zero().to_string(), "0s");
    assert_eq!(Duration::seconds(86400 + 5).to_string(), "1d5s");
    assert_eq!(Duration::minutes(3).to_string(), "3m");
}

#[test]
fn test_route_guru() {
    for i in 0..=RouteGuru::max_level() {
        assert_ne!(RouteGuru(i).time(Duration::minutes(4)), None);
    }
    assert_eq!(RouteGuru(2).time(Duration::minutes(4)), None);
}

#[test]
fn test_fleetfoot() {
    for i in 0..=Fleetfoot::max_level() {
        assert_ne!(Fleetfoot(i).time(Duration::minutes(3)), None);
    }
    assert_eq!(Fleetfoot(2).time(Duration::minutes(3)), None);
}

#[test]
fn skills_round_up() {
    assert_eq!(RouteGuru(0).time(Duration::seconds(240)), Some(Duration::seconds(240)));
    assert_eq!(RouteGuru(1).time(Duration::seconds(240)), Some(Duration::seconds(190)));
    assert_eq!(Fleetfoot(1).time(Duration::seconds(180)), Some(Duration::seconds(170)));
    assert_eq!(Fleetfoot(1).time(Duration::seconds(540)), Some(Duration::seconds(510)));
    assert_eq!(Fleetfoot(1).time(Duration::seconds(0)), Some(Duration::seconds(0)));
}

#[test]
fn edge_costs() {
    assert_eq!(EdgeCost::StandardMove.legs(), 1);
    assert_eq!(EdgeCost::StandardMove.time(), Duration::seconds(180));
    assert_eq!(EdgeCost::CentralMove.time(), Duration::seconds(10));
    assert_eq!(EdgeCost::ScrollOfEscape.money(COSTS), 7);
    assert_eq!(EdgeCost::ScrollOfEscapeHQ.money(COSTS), 11);
    assert_eq!(EdgeCost::ScrollOfEscapeForum.money(COSTS), 13);
    let caravan = EdgeCost::Caravan(CaravanCost { time: Duration::seconds(480), money: 10 });
    assert_eq!(caravan.money(COSTS), 10);
    assert_eq!(caravan.legs(), 0);
}

#[test]
fn new_cost_stands_still() {
    let t = TotalCost::new(cell(2, 2));
    assert_eq!((t.legs, t.money, t.time), (0, 0, Duration::zero()));
    assert_eq!(
        t.commands(),
        &[Command { aggregated_cost: AggregatedCost::NoMove, from: cell(2, 2), to: cell(2, 2) }]
    );
}

#[test]
fn three_walks_make_one_line() {
    let ff = Fleetfoot(0);
    let mut t = TotalCost::new(cell(1, 1));
    t.add_assign(EdgeCost::StandardMove, COSTS, ff, cell(1, 1), cell(2, 1));
    t.add_assign(EdgeCost::StandardMove, COSTS, ff, cell(2, 1), cell(3, 1));
    t.add_assign(EdgeCost::StandardMove, COSTS, ff, cell(3, 1), cell(4, 1));
    assert_eq!(
        t.commands(),
        &[Command {
            aggregated_cost: AggregatedCost::StandardMove {
                time: Duration::seconds(540),
                legs: 3,
                fleetfoot: ff,
            },
            from: cell(1, 1),
            to: cell(4, 1),
        }]
    );
    assert_eq!(t.legs, 3);
    assert_eq!(t.time, Duration::seconds(540));
    assert_eq!(t.money, 0);
}

#[test]
fn walking_skill_applies_to_the_merged_line() {
    let ff = Fleetfoot(1);
    let mut t = TotalCost::new(cell(1, 1));
    t.add_assign(EdgeCost::StandardMove, COSTS, ff, cell(1, 1), cell(2, 1));
    t.add_assign(EdgeCost::StandardMove, COSTS, ff, cell(2, 1), cell(3, 1));
    t.add_assign(EdgeCost::StandardMove, COSTS, ff, cell(3, 1), cell(4, 1));
    assert_eq!(t.time, Duration::seconds(510));
    assert_eq!(t.legs, 3);
}

#[test]
fn scroll_after_walk_is_its_own_line() {
    let ff = Fleetfoot(0);
    let t = TotalCost::new(cell(1, 1)).add(EdgeCost::StandardMove, COSTS, ff, cell(1, 1), cell(2, 1));
    let t = t.add(EdgeCost::ScrollOfEscape, COSTS, ff, cell(2, 1), cell(5, 5));
    assert_eq!(t.commands().len(), 2);
    assert_eq!(t.commands()[1].aggregated_cost, AggregatedCost::ScrollOfEscape { money: 7 });
    assert_eq!((t.legs, t.money, t.time), (1, 7, Duration::seconds(180)));
    let t = t.add(EdgeCost::ScrollOfEscapeHQ, COSTS, ff, cell(5, 5), CellIndex::Center);
    assert_eq!(t.commands().len(), 3);
    assert_eq!(t.money, 18);
}

#[test]
fn central_and_caravan_lines() {
    let ff = Fleetfoot(0);
    let b1 = CellIndex::Border { border: Border::BR, shift: 1 };
    let t = TotalCost::new(CellIndex::Center).add(EdgeCost::CentralMove, COSTS, ff, CellIndex::Center, b1);
    let caravan = CaravanCost { time: Duration::seconds(480), money: 10 };
    let t = t.add(EdgeCost::Caravan(caravan), COSTS, ff, b1, cell(3, 3));
    assert_eq!(t.commands().len(), 2);
    assert_eq!(t.commands()[1].aggregated_cost, AggregatedCost::Caravan(caravan));
    assert_eq!((t.legs, t.money, t.time), (0, 10, Duration::seconds(490)));
}

#[test]
fn checked_add_refuses_overflow() {
    let ff = Fleetfoot(0);
    let t = TotalCost::new(cell(1, 1));
    let huge = CaravanCost { time: Duration::seconds(10), money: u32::MAX };
    let t = t.checked_add(EdgeCost::Caravan(huge), COSTS, ff, cell(1, 1), cell(2, 1)).unwrap();
    assert!(t.checked_add(EdgeCost::ScrollOfEscape, COSTS, ff, cell(2, 1), cell(3, 1)).is_none());
}

fn synthetic(legs: u32, money: u32, secs: u64, steps: u8) -> TotalCost {
    let ff = Fleetfoot(0);
    let mut t = TotalCost::new(CellIndex::Center);
    let caravan = CaravanCost { time: Duration::seconds(secs), money };
    let mut at = CellIndex::Center;
    for i in 0..steps {
        let next = cell(i + 1, 1);
        t.add_assign(EdgeCost::Caravan(caravan), COSTS, ff, at, next);
        at = next;
    }
    for i in 0..legs {
        let next = cell(i as u8 + 20, 2);
        t.add_assign(EdgeCost::StandardMove, COSTS, ff, at, next);
        at = next;
    }
    t
}

#[test]
fn comparator_is_a_total_order() {
    let mut costs = Vec::new();
    for legs in 0..2 {
        for money in [0u32, 5] {
            for secs in [0u64, 60] {
                for steps in 1..3 {
                    costs.push(synthetic(legs, money, secs, steps));
                }
            }
        }
    }
    let all = [CostComparator::Legs, CostComparator::Time, CostComparator::Money];
    for c1 in all {
        for c2 in all {
            let order = c1.and_then(c2);
            for a in &costs {
                for b in &costs {
                    let ab = order.compare(a, b);
                    assert_eq!(ab, order.compare(b, a).reverse());
                    if ab == Ordering::Equal {
                        assert_eq!(a.commands(), b.commands());
                    }
                    for c in &costs {
                        if ab != Ordering::Greater && order.compare(b, c) != Ordering::Greater {
                            assert_ne!(order.compare(a, c), Ordering::Greater);
                        }
                    }
                }
            }
        }
    }
}

#[test]
fn comparator_ranks_by_measures_in_turn() {
    let cheap_slow = synthetic(0, 5, 600, 1);
    let dear_fast = synthetic(0, 10, 60, 1);
    let by_money = CostComparator::Money.and_then(CostComparator::Time);
    assert_eq!(by_money.compare(&cheap_slow, &dear_fast), Ordering::Less);
    let by_time = CostComparator::Time.and_then(CostComparator::Money);
    assert_eq!(by_time.compare(&cheap_slow, &dear_fast), Ordering::Greater);
    assert_eq!(CostComparator::Legs.eval_next(CostComparator::Legs), (CostComparator::Time, CostComparator::Money));
    assert_eq!(CostComparator::Money.eval_next(CostComparator::Money), (CostComparator::Legs, CostComparator::Time));
    assert_eq!(CostComparator::Time.eval_next(CostComparator::Money), (CostComparator::Money, CostComparator::Legs));
    assert_eq!(CostComparator::Money.as_str(), "Money");
}
