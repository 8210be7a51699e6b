use marshrutka::homeland::Homeland;
use marshrutka::index::{
    Border, BorderDirection, CellIndex, CellIndexBuilder, CellIndexCommandSuffix, CellIndexLiteral,
    Pos,
};

fn homeland(h: Homeland, x: u8, y: u8) -> CellIndex {
    CellIndex::Homeland { homeland: h, pos: Pos { x, y } }
}

#[test]
fn axis_positions_become_borders() {
    for h in Homeland::all() {
        for v in 1..=6u8 {
            let on_x = CellIndexBuilder::Homeland { homeland: h, pos: Pos { x: 0, y: v } }.build();
            let direct = CellIndexBuilder::Border {
                border: h.neighbour(BorderDirection::Vertical),
                shift: v,
            }
            .build();
            assert_eq!(on_x, direct);
            let on_y = CellIndexBuilder::Homeland { homeland: h, pos: Pos { x: v, y: 0 } }.build();
            let direct = CellIndexBuilder::Border {
                border: h.neighbour(BorderDirection::Horizontal),
                shift: v,
            }
            .build();
            assert_eq!(on_y, direct);
        }
        let origin = CellIndexBuilder::Homeland { homeland: h, pos: Pos { x: 0, y: 0 } }.build();
        assert_eq!(origin, CellIndex::Center);
    }
    assert_eq!(
        CellIndexBuilder::Homeland { homeland: Homeland::Yellow, pos: Pos { x: 0, y: 3 } }.build(),
        CellIndex::Border { border: Border::YB, shift: 3 }
    );
    assert_eq!(
        CellIndexBuilder::Homeland { homeland: Homeland::Green, pos: Pos { x: 2, y: 0 } }.build(),
        CellIndex::Border { border: Border::GY, shift: 2 }
    );
    assert_eq!(CellIndexBuilder::Border { border: Border::RG, shift: 0 }.build(), CellIndex::Center);
}

#[test]
fn names_round_trip() {
    let mut cells = vec![CellIndex::Center];
    for h in Homeland::all() {
        for x in 1..=12u8 {
            for y in [1u8, 9, 10, 99, 100, 255] {
                cells.push(homeland(h, x, y));
            }
        }
    }
    for b in Border::all() {
        for shift in [1u8, 7, 10, 128, 255] {
            cells.push(CellIndex::Border { border: b, shift });
        }
    }
    for c in cells {
        assert_eq!(CellIndex::parse(&c.to_string()), Ok(c));
    }
}

#[test]
fn names_are_written_as_on_the_map() {
    assert_eq!(homeland(Homeland::Red, 3, 4).to_string(), "R 3#4");
    assert_eq!(CellIndex::Center.to_string(), "0#0");
    assert_eq!(CellIndex::Border { border: Border::BR, shift: 2 }.to_string(), "BR 2");
    assert_eq!(CellIndexCommandSuffix(homeland(Homeland::Blue, 3, 4)).to_string(), "b_3_4");
    assert_eq!(CellIndexCommandSuffix(CellIndex::Border { border: Border::GY, shift: 12 }).to_string(), "gy_12");
    assert_eq!(CellIndexCommandSuffix(CellIndex::Center).to_string(), "0_0");
}

#[test]
fn parsing_rejects_malformed_names() {
    assert_eq!(CellIndex::parse("R 3#4"), Ok(homeland(Homeland::Red, 3, 4)));
    assert_eq!(CellIndex::parse("R +3#04"), Ok(homeland(Homeland::Red, 3, 4)));
    assert_eq!(CellIndex::parse("B 0#2"), Ok(CellIndex::Border { border: Border::YB, shift: 2 }));
    assert_eq!(CellIndex::parse("X 3#4"), Err(()));
    assert_eq!(CellIndex::parse("R 3#256"), Err(()));
    assert_eq!(CellIndex::parse("R 3-4"), Err(()));
    assert_eq!(CellIndex::parse("R3#4"), Err(()));
    assert_eq!(CellIndex::parse("BR x"), Err(()));
    assert_eq!(CellIndex::parse(""), Err(()));
    assert_eq!(CellIndex::from_parts(None, Some("0#0")), Ok(CellIndex::Center));
    assert_eq!(CellIndex::from_parts(Some("GY"), Some("3")), Ok(CellIndex::Border { border: Border::GY, shift: 3 }));
    assert_eq!(CellIndex::from_parts(None, Some("1#1")), Err(()));
}

#[test]
fn literals_move_cells() {
    let c = homeland(Homeland::Blue, 3, 4);
    assert_eq!(c.mutate_by_literal(CellIndexLiteral::Red), homeland(Homeland::Red, 3, 4));
    assert_eq!(c.mutate_by_literal(CellIndexLiteral::GY), CellIndex::Border { border: Border::GY, shift: 3 });
    assert_eq!(c.mutate_by_literal(CellIndexLiteral::Center), CellIndex::Center);
    assert_eq!(CellIndex::Center.mutate_by_literal(CellIndexLiteral::Green), homeland(Homeland::Green, 1, 1));
    assert_eq!(
        CellIndex::Border { border: Border::BR, shift: 5 }.mutate_by_literal(CellIndexLiteral::Yellow),
        homeland(Homeland::Yellow, 5, 1)
    );
    assert_eq!(CellIndexLiteral::from_cell(c), CellIndexLiteral::Blue);
    assert_eq!(CellIndexLiteral::YB.as_str(), "YB");
}

#[test]
fn clamp_limits_coordinates() {
    let b = CellIndexBuilder::Homeland { homeland: Homeland::Red, pos: Pos { x: 9, y: 2 } }.clamp(6);
    assert_eq!(b, CellIndexBuilder::Homeland { homeland: Homeland::Red, pos: Pos { x: 6, y: 2 } });
    let b = CellIndexBuilder::Border { border: Border::RG, shift: 200 }.clamp(6);
    assert_eq!(b, CellIndexBuilder::Border { border: Border::RG, shift: 6 });
}

#[test]
fn homelands_and_borders() {
    assert_eq!(Homeland::Blue.farland(), Homeland::Green);
    assert_eq!(Homeland::Red.neighbours(), [Homeland::Blue, Homeland::Green]);
    assert_eq!(Homeland::Yellow.name(), "Yellow");
    assert_eq!(Homeland::Green.as_abbrev(), 'G');
    assert_eq!(Homeland::Green.as_abbrev_low(), 'g');
    assert_eq!(Homeland::count(), 4);
    assert_eq!(Homeland::parse("Y"), Some(Homeland::Yellow));
    assert_eq!(Homeland::parse("Yellow"), None);
    assert_eq!(Border::GY.neighbours(), [Homeland::Green, Homeland::Yellow]);
    assert_eq!(Border::YB.direction(), BorderDirection::Vertical);
    assert_eq!(Border::parse("RG"), Some(Border::RG));
    assert_eq!(Border::RG.as_str_low(), "rg");
    assert_eq!(BorderDirection::Horizontal.adjacent_pos_u8(4), Pos { x: 4, y: 1 });
}
