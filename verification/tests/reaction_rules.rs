use lemon_sand_core::cell::Cell;
use lemon_sand_core::cell::CellProperty;
use lemon_sand_core::cell::CellType;
use lemon_sand_core::reactions::Reaction;
use lemon_sand_core::reactions::ReactionCondition;
use lemon_sand_core::reactions::ReactionTable;

#[test]
fn reaction_builder_defaults_and_overrides() {
    let r = Reaction::new(CellType::Sand, CellType::Water, Some(CellType::WetSand), None);
    assert_eq!(r.reactants, (CellType::Sand, CellType::Water));
    assert_eq!(r.products, (Some(CellType::WetSand), None));
    assert_eq!(r.probability, 100);
    assert!(r.condition.is_none());

    let r = r.with_probability(25);
    assert_eq!(r.probability, 25);

    let r = r.with_condition(ReactionCondition::FirstMoistureAtLeast(40));
    assert!(matches!(r.condition, Some(ReactionCondition::FirstMoistureAtLeast(40))));
}

#[test]
fn condition_evaluates_against_the_right_reactant() {
    let p = CellProperty::Moisture;
    let mut damp = Cell::new(CellType::Sand);
    damp.set_property(p, 60);
    let dry = Cell::new(CellType::Sand);

    let first = ReactionCondition::FirstMoistureAtLeast(50);
    assert!(first.holds(&damp, &dry));
    assert!(!first.holds(&dry, &damp));

    let second = ReactionCondition::SecondMoistureAtLeast(50);
    assert!(!second.holds(&damp, &dry));
    assert!(second.holds(&dry, &damp));
}

#[test]
fn default_table_holds_the_soaking_rule() {
    let table = ReactionTable::new();
    let rules = table.get_reactions(CellType::Sand, CellType::Water);
    assert_eq!(rules.len(), 1);
    assert_eq!(rules[0].reactants, (CellType::Sand, CellType::Water));
    assert_eq!(rules[0].products, (Some(CellType::WetSand), None));
    assert_eq!(rules[0].probability, 100);
    // the ordered pair is directional: the reversed lookup finds nothing
    assert!(table.get_reactions(CellType::Water, CellType::Sand).is_empty());
    assert!(table.get_reactions(CellType::Sand, CellType::Sand).is_empty());
}

#[test]
fn lookup_keeps_declaration_order() {
    let mut rules = Vec::new();
    rules.push(
        Reaction::new(CellType::Sand, CellType::Water, Some(CellType::WetSand), None)
            .with_probability(10),
    );
    rules.push(Reaction::new(CellType::Water, CellType::Sand, None, None));
    rules.push(
        Reaction::new(CellType::Sand, CellType::Water, None, Some(CellType::Water))
            .with_probability(90),
    );
    let table = ReactionTable::from_rules(rules);

    let found = table.get_reactions(CellType::Sand, CellType::Water);
    assert_eq!(found.len(), 2);
    assert_eq!(found[0].probability, 10);
    assert_eq!(found[1].probability, 90);

    let reversed = table.get_reactions(CellType::Water, CellType::Sand);
    assert_eq!(reversed.len(), 1);
    assert_eq!(reversed[0].products, (None, None));
}
