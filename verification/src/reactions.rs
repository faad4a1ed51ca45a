//! The reaction table: an immutable list of probabilistic transformation
//! rules over ordered pairs of cell kinds, matched in declaration order.

use vstd::prelude::*;

use crate::cell::Cell;
use crate::cell::CellProperty;
use crate::cell::CellType;

verus! {

/// An optional extra gate on a rule, evaluated over the two live reactant
/// cells (first the anchor being scanned, then its neighbour).
#[derive(Debug, Clone, Copy, PartialEq, Eq, Structural)]
pub enum ReactionCondition {
    /// The anchor's moisture is at least the given amount.
    FirstMoistureAtLeast(u32),
    /// The neighbour's moisture is at least the given amount.
    SecondMoistureAtLeast(u32),
}

impl ReactionCondition {
    pub open spec fn spec_holds(self, a: Cell, b: Cell) -> bool {
        match self {
            ReactionCondition::FirstMoistureAtLeast(m) => a.spec_value(CellProperty::Moisture) >= m,
            ReactionCondition::SecondMoistureAtLeast(m) => b.spec_value(CellProperty::Moisture) >= m,
        }
    }

    pub fn holds(&self, a: &Cell, b: &Cell) -> (r: bool)
        ensures
            r == self.spec_holds(*a, *b),
    {
        match self {
            ReactionCondition::FirstMoistureAtLeast(m) => a.get_property(CellProperty::Moisture) >= *m,
            ReactionCondition::SecondMoistureAtLeast(m) => b.get_property(CellProperty::Moisture) >= *m,
        }
    }
}

/// One rule: an ordered pair of reactant kinds, the kinds that replace them
/// (a missing product means the reactant becomes `Empty`), a firing
/// probability in hundredths, and an optional condition.
#[derive(Debug, Clone, Copy)]
pub struct Reaction {
    pub reactants: (CellType, CellType),
    pub products: (Option<CellType>, Option<CellType>),
    /// Probability of firing, in hundredths: `100` always fires, `0` never.
    pub probability: u32,
    pub condition: Option<ReactionCondition>,
}

impl Reaction {
    /// The rule's optional condition, `true` when none is declared.
    pub open spec fn spec_condition_holds(self, a: Cell, b: Cell) -> bool {
        match self.condition {
            Option::None => true,
            Option::Some(c) => c.spec_holds(a, b),
        }
    }

    /// The kind that replaces the first reactant when the rule fires.
    pub open spec fn spec_product_a(self) -> CellType {
        match self.products.0 {
            Option::Some(k) => k,
            Option::None => CellType::Empty,
        }
    }

    /// The kind that replaces the second reactant when the rule fires.
    pub open spec fn spec_product_b(self) -> CellType {
        match self.products.1 {
            Option::Some(k) => k,
            Option::None => CellType::Empty,
        }
    }

    pub fn new(a: CellType, b: CellType, out_a: Option<CellType>, out_b: Option<CellType>) -> (r: Self)
        ensures
            r.reactants == (a, b),
            r.products == (out_a, out_b),
            r.probability == 100,
            r.condition is None,
    {
        Reaction { reactants: (a, b), products: (out_a, out_b), probability: 100, condition: None }
    }

    pub fn with_probability(self, p: u32) -> (r: Self)
        requires
            p <= 100,
        ensures
            r == (Reaction { probability: p, ..self }),
    {
        Reaction { probability: p, ..self }
    }

    pub fn with_condition(self, c: ReactionCondition) -> (r: Self)
        ensures
            r == (Reaction { condition: Some(c), ..self }),
    {
        Reaction { condition: Some(c), ..self }
    }
}

/// The rule list every sandbox starts from: water soaks into sand, turning
/// it into wet sand and being consumed.
pub open spec fn spec_default_rules() -> Seq<Reaction> {
    seq![
        Reaction {
            reactants: (CellType::Sand, CellType::Water),
            products: (Some(CellType::WetSand), None),
            probability: 100,
            condition: None,
        },
    ]
}

/// The immutable rule list, matched in declaration order.
#[derive(Debug)]
pub struct ReactionTable {
    pub rules: Vec<Reaction>,
}

impl ReactionTable {
    pub open spec fn spec_rules(self) -> Seq<Reaction> {
        self.rules@
    }

    /// The built-in rule set.
    pub fn new() -> (r: Self)
        ensures
            r.spec_rules() == spec_default_rules(),
    {
        let mut rules: Vec<Reaction> = Vec::new();
        rules.push(Reaction::new(CellType::Sand, CellType::Water, Some(CellType::WetSand), None));
        proof {
            assert(rules@ =~= spec_default_rules());
        }
        ReactionTable { rules }
    }

    /// A table holding exactly the given rules, in the given order.
    pub fn from_rules(rules: Vec<Reaction>) -> (r: Self)
        ensures
            r.spec_rules() == rules@,
    {
        ReactionTable { rules }
    }

    /// All rules whose reactant pair is exactly `(a, b)`, in declaration
    /// order; empty when no rule matches.
    pub fn get_reactions(&self, a: CellType, b: CellType) -> (r: Vec<Reaction>)
        ensures
            r@ == self.spec_rules().filter(|rule: Reaction| rule.reactants == (a, b)),
    {
        let mut out: Vec<Reaction> = Vec::new();
        let mut i: usize = 0;
        proof {
            reveal(Seq::filter);
            assert(self.rules@.take(0int).filter(|rule: Reaction| rule.reactants == (a, b))
                =~= Seq::<Reaction>::empty());
        }
        while i < self.rules.len()
            invariant
                i <= self.rules@.len(),
                out@ == self.rules@.take(i as int).filter(|rule: Reaction| rule.reactants == (a, b)),
            decreases self.rules@.len() - i,
        {
            let rule = self.rules[i];
            proof {
                reveal(Seq::filter);
                let prev = self.rules@.take(i as int);
                assert(self.rules@.take(i + 1) =~= prev.push(rule));
                assert(prev.push(rule).drop_last() =~= prev);
                assert(prev.push(rule).last() == rule);
                assert(prev.push(rule).filter(|rule: Reaction| rule.reactants == (a, b))
                    == if rule.reactants == (a, b) {
                        prev.filter(|rule: Reaction| rule.reactants == (a, b)).push(rule)
                    } else {
                        prev.filter(|rule: Reaction| rule.reactants == (a, b))
                    });
            }
            if rule.reactants.0 == a && rule.reactants.1 == b {
                out.push(rule);
            }
            i += 1;
        }
        proof {
            assert(self.rules@.take(self.rules@.len() as int) =~= self.rules@);
        }
        out
    }
}

} // verus!
