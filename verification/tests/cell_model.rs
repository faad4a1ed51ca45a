use lemon_sand_core::cell::Cell;
use lemon_sand_core::cell::CellMovement;
use lemon_sand_core::cell::CellProperty;
use lemon_sand_core::cell::CellType;

#[test]
fn new_cell_starts_with_inherent_values() {
    let sand = Cell::new(CellType::Sand);
    assert_eq!(sand.kind, CellType::Sand);
    assert_eq!(sand.moisture, 0);
    assert_eq!(sand.last_updated, 0);

    let water = Cell::new(CellType::Water);
    assert_eq!(water.kind, CellType::Water);
    assert_eq!(water.moisture, 100);

    let wet_sand = Cell::new(CellType::WetSand);
    assert_eq!(wet_sand.moisture, 100);

    assert_eq!(Cell::sand(), Cell::new(CellType::Sand));
    assert_eq!(Cell::water(), Cell::new(CellType::Water));

    let empty = Cell::default();
    assert_eq!(empty.kind, CellType::Empty);
    assert_eq!(empty.moisture, 0);
    assert_eq!(CellType::default(), CellType::Empty);
}

#[test]
fn kind_queries() {
    assert_eq!(Cell::new(CellType::Empty).density(), 0);
    assert_eq!(Cell::new(CellType::Sand).density(), 10);
    assert_eq!(Cell::new(CellType::Water).density(), 1);
    assert_eq!(Cell::new(CellType::WetSand).density(), 10);

    assert!(matches!(Cell::new(CellType::Empty).movement(), CellMovement::Still));
    assert!(matches!(Cell::new(CellType::Sand).movement(), CellMovement::Powder));
    assert!(matches!(Cell::new(CellType::Water).movement(), CellMovement::Liquid));
    assert!(matches!(Cell::new(CellType::WetSand).movement(), CellMovement::Powder));

    assert!(Cell::new(CellType::Empty).is_empty());
    assert!(!Cell::new(CellType::Sand).is_empty());
    assert!(Cell::new(CellType::Water).is_water());
    assert!(!Cell::new(CellType::Sand).is_water());
    assert_eq!(Cell::new(CellType::Sand).get_type(), CellType::Sand);

    assert_eq!(CellType::Empty.inherent_wetness(), 0);
    assert_eq!(CellType::Sand.inherent_wetness(), 0);
    assert_eq!(CellType::Water.inherent_wetness(), 100);
    assert_eq!(CellType::WetSand.inherent_wetness(), 100);
}

#[test]
fn property_constants_per_kind() {
    let p = CellProperty::Moisture;
    assert_eq!(Cell::new(CellType::Empty).property_capacity(p), 0);
    assert_eq!(Cell::new(CellType::Sand).property_capacity(p), 150);
    assert_eq!(Cell::new(CellType::Water).property_capacity(p), 100);
    assert_eq!(Cell::new(CellType::WetSand).property_capacity(p), 150);

    assert_eq!(Cell::new(CellType::Sand).property_min_saturation(p), 50);
    assert_eq!(Cell::new(CellType::Water).property_min_saturation(p), 0);

    assert_eq!(Cell::new(CellType::Sand).property_diffusion_rate(p), 1);
    assert_eq!(Cell::new(CellType::Water).property_diffusion_rate(p), 100);

    assert_eq!(Cell::new(CellType::Sand).property_accept_rate(p), 5);
    assert_eq!(Cell::new(CellType::Water).property_accept_rate(p), 0);

    assert!(Cell::new(CellType::Water).is_pure_source(p));
    assert!(!Cell::new(CellType::Sand).is_pure_source(p));
    assert!(!Cell::new(CellType::WetSand).is_pure_source(p));
}

#[test]
fn get_and_set_property() {
    let p = CellProperty::Moisture;
    let mut sand = Cell::new(CellType::Sand);
    assert_eq!(sand.get_property(p), 0);
    sand.set_property(p, 75);
    assert_eq!(sand.get_property(p), 75);
    assert_eq!(sand.moisture, 75);
    assert_eq!(sand.kind, CellType::Sand);
}

#[test]
fn diffuse_potential_is_rate_capped_by_value() {
    let p = CellProperty::Moisture;
    // a full water cell can give everything its rate allows
    assert_eq!(Cell::new(CellType::Water).property_diffuse_potential(p), 100);
    // a dry cell has nothing to give
    assert_eq!(Cell::new(CellType::Sand).property_diffuse_potential(p), 0);
    // a damp sand cell is capped by its slow diffusion rate
    let mut sand = Cell::new(CellType::Sand);
    sand.set_property(p, 30);
    assert_eq!(sand.property_diffuse_potential(p), 1);
    // a water cell holding less than its rate gives only what it holds
    let mut water = Cell::new(CellType::Water);
    water.set_property(p, 7);
    assert_eq!(water.property_diffuse_potential(p), 7);
}

#[test]
fn accept_potential_is_rate_capped_by_headroom() {
    let p = CellProperty::Moisture;
    // dry sand accepts at its accept rate
    assert_eq!(Cell::new(CellType::Sand).property_accept_potential(p), 5);
    // nearly full sand accepts only the remaining headroom
    let mut sand = Cell::new(CellType::Sand);
    sand.set_property(p, 148);
    assert_eq!(sand.property_accept_potential(p), 2);
    // full cells accept nothing
    sand.set_property(p, 150);
    assert_eq!(sand.property_accept_potential(p), 0);
    assert_eq!(Cell::new(CellType::Water).property_accept_potential(p), 0);
    assert_eq!(Cell::new(CellType::Empty).property_accept_potential(p), 0);
}

#[test]
fn colors_follow_kind_and_moisture() {
    let p = CellProperty::Moisture;
    assert_eq!(Cell::new(CellType::Empty).color_rgba(), [0, 0, 0, 255]);
    assert_eq!(Cell::new(CellType::Water).color_rgba(), [109, 109, 210, 255]);
    // dry sand shows the light end of the ramp
    assert_eq!(Cell::new(CellType::Sand).color_rgba(), [245, 237, 190, 255]);
    // saturated sand shows the dark end
    let mut sand = Cell::new(CellType::Sand);
    sand.set_property(p, 150);
    assert_eq!(sand.color_rgba(), [195, 174, 142, 255]);
    // half saturation interpolates linearly, rounding toward the dry end
    sand.set_property(p, 75);
    assert_eq!(sand.color_rgba(), [220, 206, 166, 255]);
}
