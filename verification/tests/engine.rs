use lemon_sand_core::cell::Cell;
use lemon_sand_core::cell::CellProperty;
use lemon_sand_core::cell::CellType;
use lemon_sand_core::reactions::ReactionTable;
use lemon_sand_core::sandbox::Sandbox;

fn empty_table_sandbox(width: usize, height: usize) -> Sandbox {
    Sandbox::new_with_table(width, height, ReactionTable::from_rules(Vec::new()))
}

fn kind_at(s: &Sandbox, x: isize, y: isize) -> CellType {
    s.get(x, y).expect("coordinate should be in range").kind
}

fn count_kind(s: &Sandbox, kind: CellType) -> usize {
    let mut n = 0;
    for y in 0..s.height() as isize {
        for x in 0..s.width() as isize {
            if kind_at(s, x, y) == kind {
                n += 1;
            }
        }
    }
    n
}

#[test]
fn fresh_grid_reads_empty_in_range_and_absent_outside() {
    let s = Sandbox::new(4, 3);
    assert_eq!(s.width(), 4);
    assert_eq!(s.height(), 3);
    for y in 0..3 {
        for x in 0..4 {
            let cell = s.get(x, y).expect("in-range read");
            assert_eq!(cell.kind, CellType::Empty);
            assert_eq!(cell.moisture, 0);
        }
    }
    assert!(s.get(-1, 0).is_none());
    assert!(s.get(0, -1).is_none());
    assert!(s.get(4, 0).is_none());
    assert!(s.get(0, 3).is_none());
}

#[test]
fn place_then_get_returns_the_placed_cell() {
    let mut s = Sandbox::new(4, 3);
    s.place(2, 1, Cell::sand());
    assert_eq!(s.get(2, 1), Some(Cell::sand()));
    // no other slot changed
    for y in 0..3 {
        for x in 0..4 {
            if (x, y) != (2, 1) {
                assert_eq!(kind_at(&s, x, y), CellType::Empty);
            }
        }
    }
}

#[test]
fn out_of_range_place_is_a_no_op() {
    let mut s = Sandbox::new(4, 3);
    s.place(-1, 0, Cell::sand());
    s.place(4, 0, Cell::sand());
    s.place(0, 3, Cell::water());
    s.place(99, 99, Cell::water());
    assert_eq!(count_kind(&s, CellType::Empty), 12);
}

#[test]
fn powder_settles_one_row_per_tick() {
    // a lone dry powder over an empty column drops exactly one row per
    // tick, reaching the bottom of a height-5 grid after four ticks
    let mut s = Sandbox::new(3, 5);
    s.place(1, 0, Cell::sand());
    for t in 1..=4isize {
        s.update();
        assert_eq!(kind_at(&s, 1, t), CellType::Sand, "tick {t}");
        assert_eq!(count_kind(&s, CellType::Sand), 1, "tick {t}");
        assert_eq!(count_kind(&s, CellType::Empty), 14, "tick {t}");
    }
    // the floor stops it: one more tick changes nothing
    s.update();
    assert_eq!(kind_at(&s, 1, 4), CellType::Sand);
}

#[test]
fn single_step_never_teleports() {
    let mut s = Sandbox::new(3, 5);
    s.place(1, 0, Cell::sand());
    s.update();
    // after one tick the cell sits exactly one row down, not further
    assert_eq!(kind_at(&s, 1, 0), CellType::Empty);
    assert_eq!(kind_at(&s, 1, 1), CellType::Sand);
    assert_eq!(kind_at(&s, 1, 2), CellType::Empty);
}

#[test]
fn movement_conserves_material_without_reactions() {
    let mut s = empty_table_sandbox(4, 4);
    s.place(0, 0, Cell::sand());
    s.place(1, 0, Cell::sand());
    s.place(3, 1, Cell::sand());
    for _ in 0..6 {
        s.update();
        assert_eq!(count_kind(&s, CellType::Sand), 3);
        assert_eq!(count_kind(&s, CellType::Empty), 13);
    }
}

#[test]
fn heavier_powder_sinks_through_liquid() {
    // displacement: the denser mover swaps with the lighter target
    let mut s = empty_table_sandbox(1, 2);
    s.place(0, 0, Cell::sand());
    s.place(0, 1, Cell::water());
    s.update();
    assert_eq!(kind_at(&s, 0, 0), CellType::Water);
    assert_eq!(kind_at(&s, 0, 1), CellType::Sand);
}

#[test]
fn probability_one_reaction_fires_on_adjacency() {
    // sand over water on an otherwise empty 3x3 grid: the built-in rule
    // fires on the first tick, leaving wet sand and consuming the water
    let mut s = Sandbox::new(3, 3);
    s.place(1, 0, Cell::sand());
    s.place(1, 1, Cell::water());
    s.update();
    let product = s.get(1, 0).unwrap();
    assert_eq!(product.kind, CellType::WetSand);
    assert_eq!(product.moisture, CellType::WetSand.inherent_wetness());
    assert_eq!(kind_at(&s, 1, 1), CellType::Empty);
    assert_eq!(count_kind(&s, CellType::Empty), 8);
}

#[test]
fn liquid_spreads_sideways_but_powder_does_not() {
    // a liquid dropped on a solid floor flows off its column...
    let mut s = empty_table_sandbox(5, 2);
    for x in 0..5 {
        s.place(x, 1, Cell::sand());
    }
    s.place(2, 0, Cell::water());
    s.update();
    assert_eq!(kind_at(&s, 2, 0), CellType::Empty);
    let water_columns: Vec<isize> =
        (0..5).filter(|&x| kind_at(&s, x, 0) == CellType::Water).collect();
    assert_eq!(water_columns.len(), 1);
    let col = water_columns[0];
    assert!(col == 1 || col == 3);

    // ...while a powder in the same spot forms a static pile
    let mut s = empty_table_sandbox(5, 2);
    for x in 0..5 {
        s.place(x, 1, Cell::sand());
    }
    s.place(2, 0, Cell::sand());
    for _ in 0..5 {
        s.update();
        assert_eq!(kind_at(&s, 2, 0), CellType::Sand);
        for x in 0..5 {
            if x != 2 {
                assert_eq!(kind_at(&s, x, 0), CellType::Empty);
            }
        }
    }
}

#[test]
fn diffusion_stays_bounded_and_conserves_moisture() {
    let p = CellProperty::Moisture;
    // water locked between two sands on a 3x1 strip: nothing can move, so
    // only diffusion acts, five hundredths per tick
    let mut s = empty_table_sandbox(3, 1);
    s.place(0, 0, Cell::sand());
    s.place(1, 0, Cell::water());
    s.place(2, 0, Cell::sand());
    for _ in 0..10 {
        s.update();
        let total: u32 = (0..3).map(|x| s.get(x, 0).unwrap().get_property(p)).sum();
        assert_eq!(total, 100, "moisture moves but is not created or lost");
        for x in 0..3 {
            let c = s.get(x, 0).unwrap();
            assert!(c.get_property(p) <= c.property_capacity(p));
        }
    }
    // ten ticks drained ten transfers of five out of the source
    assert_eq!(s.get(1, 0).unwrap().get_property(p), 50);
    let into_sand: u32 = s.get(0, 0).unwrap().get_property(p) + s.get(2, 0).unwrap().get_property(p);
    assert_eq!(into_sand, 50);
}

#[test]
fn drained_pure_source_reverts_to_empty() {
    let p = CellProperty::Moisture;
    let mut s = empty_table_sandbox(3, 1);
    s.place(0, 0, Cell::sand());
    s.place(1, 0, Cell::water());
    s.place(2, 0, Cell::sand());
    for _ in 0..19 {
        s.update();
    }
    // nineteen transfers leave five hundredths, at the depletion threshold
    assert_eq!(kind_at(&s, 1, 0), CellType::Empty);
    assert_eq!(count_kind(&s, CellType::Sand), 2);
    for x in 0..3 {
        let c = s.get(x, 0).unwrap();
        assert!(c.get_property(p) <= c.property_capacity(p));
    }
}

#[test]
fn draw_writes_one_rgba_quadruple_per_cell() {
    let mut s = Sandbox::new(2, 1);
    s.place(0, 0, Cell::water());
    let mut frame = vec![0u8; 8];
    s.draw(&mut frame);
    assert_eq!(frame, vec![109, 109, 210, 255, 0, 0, 0, 255]);
}

#[test]
fn degenerate_dimensions_are_legal() {
    let mut s = Sandbox::new(0, 0);
    assert_eq!(s.width(), 0);
    assert_eq!(s.height(), 0);
    assert!(s.get(0, 0).is_none());
    s.update();

    let mut s = Sandbox::new(2, 0);
    s.place(0, 0, Cell::sand());
    assert!(s.get(0, 0).is_none());
    s.update();
}

#[test]
fn liquid_on_a_bare_floor_row_flows_sideways() {
    // the bottom row is walled below by the grid edge: a lone liquid must
    // take a pure sideways step on its first tick
    let mut s = Sandbox::new(5, 1);
    s.place(2, 0, Cell::water());
    s.update();
    assert_eq!(kind_at(&s, 2, 0), CellType::Empty);
    let water_columns: Vec<isize> =
        (0..5).filter(|&x| kind_at(&s, x, 0) == CellType::Water).collect();
    assert_eq!(water_columns.len(), 1);
    assert!(water_columns[0] == 1 || water_columns[0] == 3);
}

#[test]
fn powder_on_a_bare_floor_row_is_static() {
    // the same spot holding a powder never moves: powder takes no pure
    // sideways step, and the whole grid is untouched tick after tick
    let mut s = Sandbox::new(5, 1);
    s.place(2, 0, Cell::sand());
    for _ in 0..4 {
        s.update();
        assert_eq!(s.get(2, 0), Some(Cell::sand()));
        for x in 0..5 {
            if x != 2 {
                assert_eq!(kind_at(&s, x, 0), CellType::Empty);
            }
        }
    }
}
