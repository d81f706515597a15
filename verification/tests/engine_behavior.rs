use rack_picker::engine::{
    cell_sequence, grid_position, Coordinate, Outcome, RackAddressEngine, MAX_SEQUENCE,
    MIN_SEQUENCE,
};

fn coordinate_of(out: Outcome) -> Coordinate {
    match out {
        Outcome::Valid { coordinate } => coordinate,
        other => panic!("expected a valid outcome, got {:?}", other),
    }
}

#[test]
fn every_sequence_resolves() {
    let mut engine = RackAddressEngine::new();
    for s in 1..=160usize {
        let out = engine.evaluate(&s.to_string());
        let coordinate = coordinate_of(out);
        let expected_rack = if s <= 80 { 1 } else { 2 };
        assert_eq!(coordinate.rack, expected_rack, "sequence {}", s);
        assert_eq!(coordinate.index, (s - 1) % 80, "sequence {}", s);
        assert_eq!(engine.highlight, Some((s - 1) % 80));
    }
}

#[test]
fn rack_boundaries() {
    let mut engine = RackAddressEngine::new();
    let c = coordinate_of(engine.evaluate("1"));
    assert_eq!((c.rack, c.index), (1, 0));
    let c = coordinate_of(engine.evaluate("80"));
    assert_eq!((c.rack, c.index), (1, 79));
    let c = coordinate_of(engine.evaluate("81"));
    assert_eq!((c.rack, c.index), (2, 0));
    let c = coordinate_of(engine.evaluate("160"));
    assert_eq!((c.rack, c.index), (2, 79));
}

#[test]
fn zero_and_large_values_are_out_of_range() {
    let mut engine = RackAddressEngine::new();
    for raw in ["0", "161", "200", "1000", "99999999999999999999999999"] {
        let out = engine.evaluate(raw);
        assert_eq!(
            out,
            Outcome::OutOfRange { min: 1, max: 160 },
            "input {:?}",
            raw
        );
        assert_eq!(engine.highlight, None, "input {:?}", raw);
    }
    assert_eq!(MIN_SEQUENCE, 1);
    assert_eq!(MAX_SEQUENCE, 160);
}

#[test]
fn malformed_values_are_invalid() {
    let mut engine = RackAddressEngine::new();
    for raw in ["abc", "-5", "3.5", " 5", "5 ", "+", "++1", "1e3", "0x10", "½"] {
        let out = engine.evaluate(raw);
        assert_eq!(out, Outcome::Invalid, "input {:?}", raw);
        assert_eq!(engine.highlight, None, "input {:?}", raw);
    }
}

#[test]
fn leading_plus_sign_is_accepted() {
    let mut engine = RackAddressEngine::new();
    let c = coordinate_of(engine.evaluate("+42"));
    assert_eq!((c.rack, c.index), (1, 41));
}

#[test]
fn empty_input_is_empty_not_invalid() {
    let mut engine = RackAddressEngine::new();
    let out = engine.evaluate("");
    assert_eq!(out, Outcome::Empty);
    assert_ne!(out, Outcome::Invalid);
    assert_eq!(engine.highlight, None);
}

#[test]
fn highlight_is_exclusive() {
    let mut engine = RackAddressEngine::new();
    engine.evaluate("5");
    assert_eq!(engine.highlight, Some(4));
    engine.evaluate("10");
    // only the newest cell stays marked; the old highlight is gone
    assert_eq!(engine.highlight, Some(9));
}

#[test]
fn invalid_input_clears_previous_highlight() {
    let mut engine = RackAddressEngine::new();
    engine.evaluate("5");
    assert_eq!(engine.highlight, Some(4));
    engine.evaluate("abc");
    assert_eq!(engine.highlight, None);
}

#[test]
fn clear_blanks_the_highlight() {
    let mut engine = RackAddressEngine::new();
    engine.evaluate("77");
    assert_eq!(engine.highlight, Some(76));
    engine.clear();
    assert_eq!(engine.highlight, None);
}

#[test]
fn grid_layout_matches_physical_rack() {
    // cell 1 sits at the bottom of the rightmost column
    assert_eq!(grid_position(0), (0, 0));
    // the top of the rightmost column holds cell 16
    assert_eq!(grid_position(15), (0, 15));
    // the next column to the left starts with cell 17 at its bottom
    assert_eq!(grid_position(16), (1, 0));
    // the last cell of the rack tops the leftmost column
    assert_eq!(grid_position(79), (4, 15));
    assert_eq!(cell_sequence(0, 0), 1);
    assert_eq!(cell_sequence(0, 15), 16);
    assert_eq!(cell_sequence(1, 0), 17);
    assert_eq!(cell_sequence(4, 15), 80);
}

#[test]
fn grid_round_trip() {
    for index in 0..80usize {
        let (column, slot) = grid_position(index);
        assert_eq!(cell_sequence(column, slot), index + 1);
    }
}
