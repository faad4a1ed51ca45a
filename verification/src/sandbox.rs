//! The grid engine: a flat row-major array of cells together with the
//! per-tick pipeline that resolves reactions, moves material and diffuses
//! properties, under a once-per-tick update guard.
//!
//! The engine owns the cell array; the only external mutation entry point
//! is [`Sandbox::place`]. Out-of-range coordinates are a normal condition:
//! every lookup is bounds-checked and answers "absent", so the grid edge
//! behaves like a wall.

use vstd::prelude::*;

use crate::cell::Cell;
use crate::cell::CellMovement;
use crate::cell::CellProperty;
use crate::cell::CellType;
use crate::reactions::Reaction;
use crate::reactions::ReactionTable;
use crate::rng;

verus! {

/// A cell as it looks right after `c` moved or reacted at tick `t`.
pub open spec fn spec_stamped(c: Cell, t: u8) -> Cell {
    Cell { last_updated: t, ..c }
}

/// The grid after the contents of slots `i` and `j` changed places at tick
/// `t`; both slots are marked updated.
pub open spec fn spec_swapped(s: Seq<Cell>, i: int, j: int, t: u8) -> Seq<Cell> {
    s.update(i, spec_stamped(s[j], t)).update(j, spec_stamped(s[i], t))
}

/// The fresh cell a fired rule leaves behind for product kind `k`: it
/// starts with the kind's inherent moisture and is stamped with tick `t`.
pub open spec fn spec_product_cell(k: CellType, t: u8) -> Cell {
    Cell { kind: k, moisture: k.spec_inherent_wetness(), last_updated: t }
}

/// How many slots of `s` hold a cell of kind `k`.
pub open spec fn count_kind(s: Seq<Cell>, k: CellType) -> int
    decreases s.len(),
{
    if s.len() == 0 {
        0
    } else {
        count_kind(s.drop_last(), k) + if s.last().kind == k {
            1int
        } else {
            0int
        }
    }
}

/// Overwriting one slot changes a kind's count by at most the slot's own
/// contribution.
pub proof fn lemma_count_kind_update(s: Seq<Cell>, i: int, c: Cell, k: CellType)
    requires
        0 <= i < s.len(),
    ensures
        count_kind(s.update(i, c), k) == count_kind(s, k) - (if s[i].kind == k {
            1int
        } else {
            0int
        }) + (if c.kind == k {
            1int
        } else {
            0int
        }),
    decreases s.len(),
{
    let t = s.update(i, c);
    if i == s.len() - 1 {
        assert(t.drop_last() =~= s.drop_last());
        assert(t.last() == c);
    } else {
        assert(t.drop_last() =~= s.drop_last().update(i, c));
        assert(t.last() == s.last());
        lemma_count_kind_update(s.drop_last(), i, c, k);
    }
}

/// A kind counted zero times appears nowhere.
pub proof fn lemma_count_kind_zero(s: Seq<Cell>, k: CellType)
    requires
        count_kind(s, k) == 0,
    ensures
        forall|i: int| 0 <= i < s.len() ==> s[i].kind != k,
    decreases s.len(),
{
    lemma_count_kind_nonneg(s, k);
    if s.len() > 0 {
        lemma_count_kind_nonneg(s.drop_last(), k);
        lemma_count_kind_zero(s.drop_last(), k);
        assert(forall|i: int| 0 <= i < s.len() - 1 ==> s[i] == s.drop_last()[i]);
    }
}

pub proof fn lemma_count_kind_nonneg(s: Seq<Cell>, k: CellType)
    ensures
        count_kind(s, k) >= 0,
    decreases s.len(),
{
    if s.len() > 0 {
        lemma_count_kind_nonneg(s.drop_last(), k);
    }
}

/// No slot of `s` holds a pure moisture source (standing water).
pub open spec fn spec_no_pure_sources(s: Seq<Cell>) -> bool {
    forall|i: int| 0 <= i < s.len() ==> !(#[trigger] s[i]).spec_pure_source(CellProperty::Moisture)
}

/// The grid engine: cell array, dimensions, reaction table and the tick
/// counter backing the once-per-tick guard.
pub struct Sandbox {
    cells: Vec<Cell>,
    width: usize,
    height: usize,
    table: ReactionTable,
    update_counter: u8,
}

impl Sandbox {
    /// The cell array, row-major: slot `y * width + x` holds `(x, y)`.
    pub closed spec fn grid(self) -> Seq<Cell> {
        self.cells@
    }

    pub closed spec fn spec_width(self) -> int {
        self.width as int
    }

    pub closed spec fn spec_height(self) -> int {
        self.height as int
    }

    /// The rule list reactions are resolved against, in declaration order.
    pub closed spec fn spec_table(self) -> Seq<Reaction> {
        self.table.spec_rules()
    }

    /// The tick stamp cells touched during the current `update` carry.
    pub closed spec fn spec_counter(self) -> u8 {
        self.update_counter
    }

    pub open spec fn spec_in_bounds(self, x: int, y: int) -> bool {
        0 <= x < self.spec_width() && 0 <= y < self.spec_height()
    }

    pub open spec fn spec_index(self, x: int, y: int) -> int {
        y * self.spec_width() + x
    }

    /// Well-formedness: the array matches the dimensions, index arithmetic
    /// cannot overflow, and every cell respects its capacity bound.
    pub open spec fn wf(self) -> bool {
        &&& self.grid().len() == self.spec_width() * self.spec_height()
        &&& self.spec_width() * self.spec_height() <= isize::MAX as int
        &&& self.spec_width() <= isize::MAX as int
        &&& self.spec_height() <= isize::MAX as int
        &&& forall|i: int| 0 <= i < self.grid().len() ==> (#[trigger] self.grid()[i]).wf()
    }

    /// The value the tick counter takes on the next `update` call.
    pub open spec fn spec_next_tick(self) -> u8 {
        if self.spec_counter() == 255 {
            0
        } else {
            (self.spec_counter() + 1) as u8
        }
    }

    /// A row-major index is in range exactly when its coordinates are.
    pub proof fn lemma_index_bounds(self, x: int, y: int)
        requires
            self.spec_in_bounds(x, y),
        ensures
            0 <= self.spec_index(x, y) < self.spec_width() * self.spec_height(),
    {
        let w = self.spec_width();
        let h = self.spec_height();
        assert(0 <= y * w + x < w * h) by (nonlinear_arith)
            requires 0 <= x < w, 0 <= y < h,
        ;
    }

    /// Distinct in-bounds coordinates have distinct row-major indices.
    pub proof fn lemma_index_injective(self, x1: int, y1: int, x2: int, y2: int)
        requires
            self.spec_in_bounds(x1, y1),
            self.spec_in_bounds(x2, y2),
            (x1, y1) != (x2, y2),
        ensures
            self.spec_index(x1, y1) != self.spec_index(x2, y2),
    {
        let w = self.spec_width();
        assert(y1 * w + x1 != y2 * w + x2) by (nonlinear_arith)
            requires 0 <= x1 < w, 0 <= x2 < w, 0 <= y1, 0 <= y2, !(x1 == x2 && y1 == y2),
        ;
    }

    /// An all-empty grid of the given dimensions, holding the built-in
    /// reaction rules. Degenerate zero-sized grids are legal; the only
    /// precondition is that the cell count fits index arithmetic.
    pub fn new(width: usize, height: usize) -> (r: Self)
        requires
            width as int * height as int <= isize::MAX as int,
            width <= isize::MAX as usize,
            height <= isize::MAX as usize,
        ensures
            r.wf(),
            r.spec_width() == width,
            r.spec_height() == height,
            r.spec_counter() == 0,
            r.spec_table() == crate::reactions::spec_default_rules(),
            r.grid().len() == width as int * height as int,
            forall|i: int| 0 <= i < r.grid().len() ==> r.grid()[i] == (Cell {
                kind: CellType::Empty,
                moisture: 0,
                last_updated: 0,
            }),
    {
        let n = width * height;
        let mut cells: Vec<Cell> = Vec::new();
        let mut i: usize = 0;
        while i < n
            invariant
                i <= n,
                cells@.len() == i,
                forall|j: int| 0 <= j < i ==> cells@[j] == (Cell {
                    kind: CellType::Empty,
                    moisture: 0,
                    last_updated: 0,
                }),
            decreases n - i,
        {
            cells.push(Cell::default());
            i += 1;
        }
        Sandbox { cells, width, height, table: ReactionTable::new(), update_counter: 0 }
    }

    /// As `new`, but with an explicitly supplied reaction table, so that
    /// independent simulations can run under different (or no) rules.
    pub fn new_with_table(width: usize, height: usize, table: ReactionTable) -> (r: Self)
        requires
            width as int * height as int <= isize::MAX as int,
            width <= isize::MAX as usize,
            height <= isize::MAX as usize,
        ensures
            r.wf(),
            r.spec_width() == width,
            r.spec_height() == height,
            r.spec_counter() == 0,
            r.spec_table() == table.spec_rules(),
            r.grid().len() == width as int * height as int,
            forall|i: int| 0 <= i < r.grid().len() ==> r.grid()[i] == (Cell {
                kind: CellType::Empty,
                moisture: 0,
                last_updated: 0,
            }),
    {
        let r = Self::new(width, height);
        Sandbox { table, ..r }
    }

    pub fn width(&self) -> (r: usize)
        ensures
            r == self.spec_width(),
    {
        self.width
    }

    pub fn height(&self) -> (r: usize)
        ensures
            r == self.spec_height(),
    {
        self.height
    }

    /// Row-major index of an in-range coordinate pair; `None` out of range.
    fn coords_to_index(&self, x: isize, y: isize) -> (r: Option<usize>)
        requires
            self.wf(),
        ensures
            self.spec_in_bounds(x as int, y as int) ==> r == Some(
                self.spec_index(x as int, y as int) as usize,
            ),
            !self.spec_in_bounds(x as int, y as int) ==> r is None,
    {
        if x < 0 || y < 0 || x >= self.width as isize || y >= self.height as isize {
            return None;
        }
        proof {
            self.lemma_index_bounds(x as int, y as int);
        }
        Some((y * self.width as isize + x) as usize)
    }

    /// Bounds-checked read: the cell at `(x, y)`, or "absent" out of range.
    pub fn get(&self, x: isize, y: isize) -> (r: Option<Cell>)
        requires
            self.wf(),
        ensures
            self.spec_in_bounds(x as int, y as int) ==> r == Some(
                self.grid()[self.spec_index(x as int, y as int)],
            ),
            !self.spec_in_bounds(x as int, y as int) ==> r is None,
    {
        proof {
            if self.spec_in_bounds(x as int, y as int) {
                self.lemma_index_bounds(x as int, y as int);
            }
        }
        match self.coords_to_index(x, y) {
            Some(i) => Some(self.cells[i]),
            None => None,
        }
    }

    /// Bounds-checked write, silently ignored out of range: the sole
    /// external mutation entry point. Callers hand in a well-formed cell;
    /// every `Cell` constructor yields one.
    pub fn place(&mut self, x: isize, y: isize, cell: Cell)
        requires
            old(self).wf(),
            cell.wf(),
        ensures
            final(self).wf(),
            final(self).spec_width() == old(self).spec_width(),
            final(self).spec_height() == old(self).spec_height(),
            final(self).spec_table() == old(self).spec_table(),
            final(self).spec_counter() == old(self).spec_counter(),
            old(self).spec_in_bounds(x as int, y as int) ==> final(self).grid() == old(
                self,
            ).grid().update(old(self).spec_index(x as int, y as int), cell),
            !old(self).spec_in_bounds(x as int, y as int) ==> final(self).grid() == old(
                self,
            ).grid(),
    {
        proof {
            if self.spec_in_bounds(x as int, y as int) {
                self.lemma_index_bounds(x as int, y as int);
            }
        }
        if let Some(index) = self.coords_to_index(x, y) {
            self.cells[index] = cell;
        }
    }

    /// Whether `cell` may displace the contents of slot `to`: the target
    /// must be in range and strictly less dense.
    pub open spec fn spec_can_displace(self, cell: Cell, tx: int, ty: int) -> bool {
        self.spec_in_bounds(tx, ty) && cell.kind.spec_density() > self.grid()[self.spec_index(
            tx,
            ty,
        )].kind.spec_density()
    }

    fn can_displace(&self, cell: Cell, to: (isize, isize)) -> (r: bool)
        requires
            self.wf(),
        ensures
            r == self.spec_can_displace(cell, to.0 as int, to.1 as int),
    {
        let Some(target) = self.get(to.0, to.1) else {
            return false;
        };
        cell.density() > target.density()
    }

    /// Swap the contents of two in-range slots and mark both updated at the
    /// current tick. Movement is realized only through this primitive, so a
    /// move never creates or destroys material.
    fn swap_cells(&mut self, from: (isize, isize), to: (isize, isize))
        requires
            old(self).wf(),
            old(self).spec_in_bounds(from.0 as int, from.1 as int),
            old(self).spec_in_bounds(to.0 as int, to.1 as int),
            (from.0 as int, from.1 as int) != (to.0 as int, to.1 as int),
        ensures
            final(self).wf(),
            final(self).spec_width() == old(self).spec_width(),
            final(self).spec_height() == old(self).spec_height(),
            final(self).spec_table() == old(self).spec_table(),
            final(self).spec_counter() == old(self).spec_counter(),
            final(self).grid() == spec_swapped(
                old(self).grid(),
                old(self).spec_index(from.0 as int, from.1 as int),
                old(self).spec_index(to.0 as int, to.1 as int),
                old(self).spec_counter(),
            ),
            forall|k: CellType| count_kind(final(self).grid(), k) == count_kind(
                old(self).grid(),
                k,
            ),
    {
        proof {
            self.lemma_index_bounds(from.0 as int, from.1 as int);
            self.lemma_index_bounds(to.0 as int, to.1 as int);
            self.lemma_index_injective(
                from.0 as int,
                from.1 as int,
                to.0 as int,
                to.1 as int,
            );
        }
        let i = self.coords_to_index(from.0, from.1).unwrap();
        let j = self.coords_to_index(to.0, to.1).unwrap();
        let ci = self.cells[i];
        let cj = self.cells[j];
        let ghost g0 = self.cells@;
        self.cells[i] = Cell { last_updated: self.update_counter, ..cj };
        self.cells[j] = Cell { last_updated: self.update_counter, ..ci };
        proof {
            let t = self.update_counter;
            assert forall|k: CellType| count_kind(self.cells@, k) == count_kind(g0, k) by {
                lemma_count_kind_update(g0, i as int, spec_stamped(g0[j as int], t), k);
                lemma_count_kind_update(
                    g0.update(i as int, spec_stamped(g0[j as int], t)),
                    j as int,
                    spec_stamped(g0[i as int], t),
                    k,
                );
            }
        }
    }
    /// One accomplished movement step: the mover at `(x, y)` displaced the
    /// strictly lighter contents of `(tx, ty)`; the two slots swapped and
    /// were stamped, and the mover now rests at `pos`.
    pub open spec fn spec_moved_to(
        self,
        post: Sandbox,
        x: int,
        y: int,
        tx: int,
        ty: int,
        pos: (isize, isize),
    ) -> bool {
        &&& self.spec_can_displace(self.grid()[self.spec_index(x, y)], tx, ty)
        &&& post.grid() == spec_swapped(
            self.grid(),
            self.spec_index(x, y),
            self.spec_index(tx, ty),
            self.spec_counter(),
        )
        &&& pos.0 as int == tx && pos.1 as int == ty
    }

    /// The one-step movement contract shared by every movement class.
    ///
    /// `dy` is the preferred vertical direction (`1` falls, `-1` rises) and
    /// `spread` says whether pure sideways steps are allowed when the three
    /// `dy`-ward targets are blocked. Straight `dy`-ward is always preferred;
    /// the two diagonals are tried in a random order, as are the two sides;
    /// a cell with no open target stays exactly where it is.
    pub open spec fn spec_move_rel(
        self,
        post: Sandbox,
        x: int,
        y: int,
        dy: int,
        spread: bool,
        pos: (isize, isize),
    ) -> bool {
        let c = self.grid()[self.spec_index(x, y)];
        let open_down = self.spec_can_displace(c, x, y + dy);
        let open_dl = self.spec_can_displace(c, x - 1, y + dy);
        let open_dr = self.spec_can_displace(c, x + 1, y + dy);
        let open_l = self.spec_can_displace(c, x - 1, y);
        let open_r = self.spec_can_displace(c, x + 1, y);
        &&& (open_down ==> self.spec_moved_to(post, x, y, x, y + dy, pos))
        &&& (!open_down && (open_dl || open_dr) ==> (open_dl && self.spec_moved_to(
            post,
            x,
            y,
            x - 1,
            y + dy,
            pos,
        )) || (open_dr && self.spec_moved_to(post, x, y, x + 1, y + dy, pos)))
        &&& (!open_down && !open_dl && !open_dr && spread && (open_l || open_r) ==> (open_l
            && self.spec_moved_to(post, x, y, x - 1, y, pos)) || (open_r && self.spec_moved_to(
            post,
            x,
            y,
            x + 1,
            y,
            pos,
        )))
        &&& (!open_down && !open_dl && !open_dr && (!spread || (!open_l && !open_r)) ==> post
            == self && pos.0 as int == x && pos.1 as int == y)
    }

    /// Try to move the cell at `(x, y)` one step, `dy`-ward first, and
    /// report where it ended up.
    fn move_cell(&mut self, x: isize, y: isize, dy: isize, spread: bool) -> (pos: (
        isize,
        isize,
    ))
        requires
            old(self).wf(),
            old(self).spec_in_bounds(x as int, y as int),
            dy == 1isize || dy == -1isize,
        ensures
            final(self).wf(),
            final(self).spec_width() == old(self).spec_width(),
            final(self).spec_height() == old(self).spec_height(),
            final(self).spec_table() == old(self).spec_table(),
            final(self).spec_counter() == old(self).spec_counter(),
            forall|k: CellType| count_kind(final(self).grid(), k) == count_kind(
                old(self).grid(),
                k,
            ),
            old(self).spec_move_rel(*final(self), x as int, y as int, dy as int, spread, pos),
            final(self).spec_in_bounds(pos.0 as int, pos.1 as int),
    {
        let cell = self.get(x, y).unwrap();
        let straight = (x, y + dy);
        if self.can_displace(cell, straight) {
            self.swap_cells((x, y), straight);
            return straight;
        }
        let d1: isize = if rng::random_bool() {
            1
        } else {
            -1
        };
        let d2: isize = -d1;
        let diag1 = (x + d1, y + dy);
        let diag2 = (x + d2, y + dy);
        if self.can_displace(cell, diag1) {
            self.swap_cells((x, y), diag1);
            return diag1;
        }
        if self.can_displace(cell, diag2) {
            self.swap_cells((x, y), diag2);
            return diag2;
        }
        if spread {
            let s1: isize = if rng::random_bool() {
                1
            } else {
                -1
            };
            let side1 = (x + s1, y);
            let side2 = (x - s1, y);
            if self.can_displace(cell, side1) {
                self.swap_cells((x, y), side1);
                return side1;
            }
            if self.can_displace(cell, side2) {
                self.swap_cells((x, y), side2);
                return side2;
            }
        }
        (x, y)
    }

    /// `(nx, ny)` is one of the four orthogonal neighbours of `(x, y)`.
    pub open spec fn spec_neighbor4(self, x: int, y: int, nx: int, ny: int) -> bool {
        ||| (nx, ny) == (x, y + 1)
        ||| (nx, ny) == (x, y - 1)
        ||| (nx, ny) == (x - 1, y)
        ||| (nx, ny) == (x + 1, y)
    }

    /// What one fired rule did: some in-range, not-yet-updated orthogonal
    /// neighbour of the anchor matched rule `ri` in one of the two
    /// orientations, the rule's condition held, its probability is positive
    /// (a probability-zero rule never passes the draw), no earlier rule in
    /// declaration order was certain to fire in the same orientation, the
    /// reversed orientation was tried only because no anchor-first rule was
    /// certain, and both reactant slots now hold fresh product cells stamped
    /// with the current tick.
    pub open spec fn spec_react_witness(
        self,
        post: Sandbox,
        x: int,
        y: int,
        nx: int,
        ny: int,
        ri: int,
    ) -> bool {
        let i = self.spec_index(x, y);
        let j = self.spec_index(nx, ny);
        let a = self.grid()[i];
        let b = self.grid()[j];
        let t = self.spec_counter();
        let rule = self.spec_table()[ri];
        &&& self.spec_neighbor4(x, y, nx, ny)
        &&& self.spec_in_bounds(nx, ny)
        &&& 0 <= ri < self.spec_table().len()
        &&& b.last_updated != t
        &&& rule.probability > 0
        &&& {
            ||| (rule.reactants == (a.kind, b.kind) && rule.spec_condition_holds(a, b)
                && (forall|k: int|
                    0 <= k < ri ==> !((#[trigger] self.spec_table()[k]).reactants == (
                        a.kind,
                        b.kind,
                    ) && self.spec_table()[k].probability == 100
                        && self.spec_table()[k].spec_condition_holds(a, b)))
                && post.grid() == self.grid().update(
                i,
                spec_product_cell(rule.spec_product_a(), t),
            ).update(j, spec_product_cell(rule.spec_product_b(), t)))
            ||| (rule.reactants == (b.kind, a.kind) && rule.spec_condition_holds(b, a)
                && !Self::spec_guaranteed_pair(self.spec_table(), a, b)
                && (forall|k: int|
                    0 <= k < ri ==> !((#[trigger] self.spec_table()[k]).reactants == (
                        b.kind,
                        a.kind,
                    ) && self.spec_table()[k].probability == 100
                        && self.spec_table()[k].spec_condition_holds(b, a)))
                && post.grid() == self.grid().update(
                i,
                spec_product_cell(rule.spec_product_b(), t),
            ).update(j, spec_product_cell(rule.spec_product_a(), t)))
        }
    }

    /// A pair of live cells for which some rule cannot fail: it matches the
    /// pair in this orientation, carries probability `100`, and its
    /// condition (if any) holds.
    pub open spec fn spec_guaranteed_pair(rules: Seq<Reaction>, a: Cell, b: Cell) -> bool {
        exists|ri: int|
            0 <= ri < rules.len() && (#[trigger] rules[ri]).reactants == (a.kind, b.kind)
                && rules[ri].probability == 100 && rules[ri].spec_condition_holds(a, b)
    }

    /// Try every rule, in declaration order, against the anchor at `(x, y)`
    /// and the neighbour at `(nx, ny)`; first the anchor-first orientation,
    /// then the reversed one. The first rule whose probability gate and
    /// condition pass fires.
    #[verifier::loop_isolation(false)]
    fn try_react_with(&mut self, x: isize, y: isize, nx: isize, ny: isize) -> (fired: bool)
        requires
            old(self).wf(),
            old(self).spec_in_bounds(x as int, y as int),
            old(self).spec_in_bounds(nx as int, ny as int),
            old(self).spec_neighbor4(x as int, y as int, nx as int, ny as int),
        ensures
            final(self).wf(),
            final(self).spec_width() == old(self).spec_width(),
            final(self).spec_height() == old(self).spec_height(),
            final(self).spec_table() == old(self).spec_table(),
            final(self).spec_counter() == old(self).spec_counter(),
            !fired ==> *final(self) == *old(self),
            fired ==> exists|ri: int|
                old(self).spec_react_witness(
                    *final(self),
                    x as int,
                    y as int,
                    nx as int,
                    ny as int,
                    ri,
                ),
            ({
                let a = old(self).grid()[old(self).spec_index(x as int, y as int)];
                let b = old(self).grid()[old(self).spec_index(nx as int, ny as int)];
                b.last_updated != old(self).spec_counter() && (Self::spec_guaranteed_pair(
                    old(self).spec_table(),
                    a,
                    b,
                ) || Self::spec_guaranteed_pair(old(self).spec_table(), b, a))
            }) ==> fired,
    {
        let a = self.get(x, y).unwrap();
        let b = self.get(nx, ny).unwrap();
        if b.last_updated == self.update_counter {
            return false;
        }
        let i = self.coords_to_index(x, y).unwrap();
        let j = self.coords_to_index(nx, ny).unwrap();
        proof {
            self.lemma_index_bounds(x as int, y as int);
            self.lemma_index_bounds(nx as int, ny as int);
            self.lemma_index_injective(x as int, y as int, nx as int, ny as int);
        }
        let n = self.table.rules.len();
        let mut ri: usize = 0;
        while ri < n
            invariant
                n == self.table.rules@.len(),
                ri <= n,
                self.wf(),
                *self == *old(self),
                self.spec_in_bounds(x as int, y as int),
                self.spec_in_bounds(nx as int, ny as int),
                a == self.grid()[self.spec_index(x as int, y as int)],
                b == self.grid()[self.spec_index(nx as int, ny as int)],
                i == self.spec_index(x as int, y as int),
                j == self.spec_index(nx as int, ny as int),
                i < self.grid().len() && j < self.grid().len() && i != j,
                b.last_updated != self.spec_counter(),
                forall|k: int|
                    0 <= k < ri ==> !((#[trigger] self.spec_table()[k]).reactants == (
                        a.kind,
                        b.kind,
                    ) && self.spec_table()[k].probability == 100
                        && self.spec_table()[k].spec_condition_holds(a, b)),
            decreases n - ri,
        {
            let rule = self.table.rules[ri];
            if rule.reactants.0 == a.get_type() && rule.reactants.1 == b.get_type() {
                let gate_open = rng::draw_percent() < rule.probability;
                let cond_ok = match &rule.condition {
                    Option::None => true,
                    Option::Some(c) => c.holds(&a, &b),
                };
                if gate_open && cond_ok {
                    self.apply_products(i, j, rule, false);
                    proof {
                        assert(old(self).spec_react_witness(
                            *self,
                            x as int,
                            y as int,
                            nx as int,
                            ny as int,
                            ri as int,
                        ));
                    }
                    return true;
                }
            }
            ri += 1;
        }
        let mut rj: usize = 0;
        while rj < n
            invariant
                n == self.table.rules@.len(),
                rj <= n,
                self.wf(),
                *self == *old(self),
                self.spec_in_bounds(x as int, y as int),
                self.spec_in_bounds(nx as int, ny as int),
                a == self.grid()[self.spec_index(x as int, y as int)],
                b == self.grid()[self.spec_index(nx as int, ny as int)],
                i == self.spec_index(x as int, y as int),
                j == self.spec_index(nx as int, ny as int),
                i < self.grid().len() && j < self.grid().len() && i != j,
                b.last_updated != self.spec_counter(),
                !Self::spec_guaranteed_pair(self.spec_table(), a, b),
                forall|k: int|
                    0 <= k < rj ==> !((#[trigger] self.spec_table()[k]).reactants == (
                        b.kind,
                        a.kind,
                    ) && self.spec_table()[k].probability == 100
                        && self.spec_table()[k].spec_condition_holds(b, a)),
            decreases n - rj,
        {
            let rule = self.table.rules[rj];
            if rule.reactants.0 == b.get_type() && rule.reactants.1 == a.get_type() {
                let gate_open = rng::draw_percent() < rule.probability;
                let cond_ok = match &rule.condition {
                    Option::None => true,
                    Option::Some(c) => c.holds(&b, &a),
                };
                if gate_open && cond_ok {
                    self.apply_products(i, j, rule, true);
                    proof {
                        assert(old(self).spec_react_witness(
                            *self,
                            x as int,
                            y as int,
                            nx as int,
                            ny as int,
                            rj as int,
                        ));
                    }
                    return true;
                }
            }
            rj += 1;
        }
        false
    }

    /// Overwrite the two reactant slots with the fired rule's product
    /// cells, both stamped with the current tick. With `reversed` the
    /// neighbour was the rule's first reactant.
    fn apply_products(&mut self, i: usize, j: usize, rule: Reaction, reversed: bool)
        requires
            old(self).wf(),
            i < old(self).grid().len(),
            j < old(self).grid().len(),
            i != j,
        ensures
            final(self).wf(),
            final(self).spec_width() == old(self).spec_width(),
            final(self).spec_height() == old(self).spec_height(),
            final(self).spec_table() == old(self).spec_table(),
            final(self).spec_counter() == old(self).spec_counter(),
            !reversed ==> final(self).grid() == old(self).grid().update(
                i as int,
                spec_product_cell(rule.spec_product_a(), old(self).spec_counter()),
            ).update(j as int, spec_product_cell(rule.spec_product_b(), old(self).spec_counter())),
            reversed ==> final(self).grid() == old(self).grid().update(
                i as int,
                spec_product_cell(rule.spec_product_b(), old(self).spec_counter()),
            ).update(j as int, spec_product_cell(rule.spec_product_a(), old(self).spec_counter())),
    {
        let t = self.update_counter;
        let ka = match rule.products.0 {
            Option::Some(k) => k,
            Option::None => CellType::Empty,
        };
        let kb = match rule.products.1 {
            Option::Some(k) => k,
            Option::None => CellType::Empty,
        };
        let ca = Cell { kind: ka, moisture: ka.inherent_wetness(), last_updated: t };
        let cb = Cell { kind: kb, moisture: kb.inherent_wetness(), last_updated: t };
        if reversed {
            self.cells[i] = cb;
            self.cells[j] = ca;
        } else {
            self.cells[i] = ca;
            self.cells[j] = cb;
        }
    }

    /// Reaction phase for the cell at `(x, y)`: its four orthogonal
    /// neighbours are examined in the fixed order below, above, left,
    /// right; the first neighbour with a matching, successfully gated rule
    /// reacts, and reactions pre-empt movement for this tick.
    fn react_at(&mut self, x: isize, y: isize) -> (fired: bool)
        requires
            old(self).wf(),
            old(self).spec_in_bounds(x as int, y as int),
        ensures
            final(self).wf(),
            final(self).spec_width() == old(self).spec_width(),
            final(self).spec_height() == old(self).spec_height(),
            final(self).spec_table() == old(self).spec_table(),
            final(self).spec_counter() == old(self).spec_counter(),
            !fired ==> *final(self) == *old(self),
            fired ==> exists|nx: int, ny: int, ri: int|
                old(self).spec_react_witness(*final(self), x as int, y as int, nx, ny, ri),
            !fired ==> forall|nx: int, ny: int|
                old(self).spec_neighbor4(x as int, y as int, nx, ny) && old(self).spec_in_bounds(
                    nx,
                    ny,
                ) ==> ({
                    let a = old(self).grid()[old(self).spec_index(x as int, y as int)];
                    let b = old(self).grid()[old(self).spec_index(nx, ny)];
                    b.last_updated == old(self).spec_counter() || (!Self::spec_guaranteed_pair(
                        old(self).spec_table(),
                        a,
                        b,
                    ) && !Self::spec_guaranteed_pair(old(self).spec_table(), b, a))
                }),
    {
        if y < self.height as isize - 1 {
            if self.try_react_with(x, y, x, y + 1) {
                return true;
            }
        }
        if y > 0 {
            if self.try_react_with(x, y, x, y - 1) {
                return true;
            }
        }
        if x > 0 {
            if self.try_react_with(x, y, x - 1, y) {
                return true;
            }
        }
        if x < self.width as isize - 1 {
            if self.try_react_with(x, y, x + 1, y) {
                return true;
            }
        }
        false
    }

    /// The movement phase's whole outcome for the cell at `(x, y)`: its
    /// movement class picks the one-step relation. Powder falls without
    /// sideways spreading, liquid spreads sideways when vertically blocked,
    /// gas mirrors liquid upward, and motionless kinds stay put.
    pub open spec fn spec_movement_outcome(self, post: Sandbox, x: int, y: int, pos: (
        isize,
        isize,
    )) -> bool {
        let cls = self.grid()[self.spec_index(x, y)].kind.spec_movement();
        &&& post.spec_width() == self.spec_width()
        &&& post.spec_height() == self.spec_height()
        &&& post.spec_table() == self.spec_table()
        &&& post.spec_counter() == self.spec_counter()
        &&& (cls == CellMovement::Still ==> post == self && pos.0 as int == x && pos.1 as int
            == y)
        &&& (cls == CellMovement::Powder ==> self.spec_move_rel(post, x, y, 1, false, pos))
        &&& (cls == CellMovement::Liquid ==> self.spec_move_rel(post, x, y, 1, true, pos))
        &&& (cls == CellMovement::Gas ==> self.spec_move_rel(post, x, y, -1, true, pos))
    }

    /// Movement phase for the cell at `(x, y)`: dispatch on its movement
    /// class.
    fn update_movement(&mut self, x: isize, y: isize) -> (pos: (isize, isize))
        requires
            old(self).wf(),
            old(self).spec_in_bounds(x as int, y as int),
        ensures
            final(self).wf(),
            final(self).spec_width() == old(self).spec_width(),
            final(self).spec_height() == old(self).spec_height(),
            final(self).spec_table() == old(self).spec_table(),
            final(self).spec_counter() == old(self).spec_counter(),
            forall|k: CellType| count_kind(final(self).grid(), k) == count_kind(
                old(self).grid(),
                k,
            ),
            final(self).spec_in_bounds(pos.0 as int, pos.1 as int),
            old(self).spec_movement_outcome(*final(self), x as int, y as int, pos),
    {
        let cell = self.get(x, y).unwrap();
        match cell.movement() {
            CellMovement::Still => (x, y),
            CellMovement::Powder => self.move_cell(x, y, 1, false),
            CellMovement::Liquid => self.move_cell(x, y, 1, true),
            CellMovement::Gas => self.move_cell(x, y, -1, true),
        }
    }

    /// One accomplished diffusion step: `(nx, ny)` is an in-range
    /// eight-neighbour of the source that was eligible to receive, the
    /// transfer amount is the lesser of the source's diffuse potential and
    /// the target's accept potential, and the source reverted to empty
    /// space exactly when it is a pure source that the transfer drained to
    /// the depletion threshold.
    pub open spec fn spec_diffuse_witness(
        self,
        post: Sandbox,
        x: int,
        y: int,
        nx: int,
        ny: int,
        property: CellProperty,
    ) -> bool {
        let i = self.spec_index(x, y);
        let j = self.spec_index(nx, ny);
        let src = self.grid()[i];
        let tgt = self.grid()[j];
        let amount = spec_transfer_amount(src, tgt, property);
        let mid = self.grid().update(
            j,
            spec_with_value(tgt, property, (tgt.spec_value(property) + amount) as u32),
        ).update(i, spec_with_value(src, property, (src.spec_value(property) - amount) as u32));
        &&& spec_neighbor8(x, y, nx, ny)
        &&& self.spec_in_bounds(nx, ny)
        &&& spec_diffusion_target_ok(src, tgt, property)
        &&& post.grid() == if src.spec_pure_source(property) && src.spec_value(property) - amount
            <= DEPLETION_THRESHOLD {
            mid.update(i, Cell { kind: CellType::Empty, moisture: 0, last_updated: 0 })
        } else {
            mid
        }
    }

    /// Replace a drained pure source with empty space: once a pure source's
    /// property value falls to the depletion threshold it is exhausted.
    fn check_depletion(&mut self, x: isize, y: isize, property: CellProperty)
        requires
            old(self).wf(),
            old(self).spec_in_bounds(x as int, y as int),
        ensures
            final(self).wf(),
            final(self).spec_width() == old(self).spec_width(),
            final(self).spec_height() == old(self).spec_height(),
            final(self).spec_table() == old(self).spec_table(),
            final(self).spec_counter() == old(self).spec_counter(),
            ({
                let c = old(self).grid()[old(self).spec_index(x as int, y as int)];
                if c.spec_pure_source(property) && c.spec_value(property) <= DEPLETION_THRESHOLD {
                    final(self).grid() == old(self).grid().update(
                        old(self).spec_index(x as int, y as int),
                        Cell { kind: CellType::Empty, moisture: 0, last_updated: 0 },
                    )
                } else {
                    *final(self) == *old(self)
                }
            }),
    {
        let cell = self.get(x, y).unwrap();
        if cell.is_pure_source(property) && cell.get_property(property) <= DEPLETION_THRESHOLD {
            self.place(x, y, Cell::default());
        }
    }

    /// Transfer the property from the source at `(x, y)` to the first
    /// eligible candidate slot, then check the source for depletion.
    #[verifier::loop_isolation(false)]
    fn try_spread_property(
        &mut self,
        x: isize,
        y: isize,
        candidates: &Vec<(isize, isize)>,
        property: CellProperty,
    ) -> (spread: bool)
        requires
            old(self).wf(),
            old(self).spec_in_bounds(x as int, y as int),
            forall|ci: int|
                0 <= ci < candidates@.len() ==> spec_neighbor8(
                    x as int,
                    y as int,
                    (#[trigger] candidates@[ci]).0 as int,
                    candidates@[ci].1 as int,
                ),
        ensures
            final(self).wf(),
            final(self).spec_width() == old(self).spec_width(),
            final(self).spec_height() == old(self).spec_height(),
            final(self).spec_table() == old(self).spec_table(),
            final(self).spec_counter() == old(self).spec_counter(),
            !spread ==> *final(self) == *old(self),
            spread <==> exists|ci: int|
                0 <= ci < candidates@.len() && spec_candidate_ok(
                    *old(self),
                    x as int,
                    y as int,
                    #[trigger] candidates@[ci],
                    property,
                ),
            spread ==> exists|ci: int|
                0 <= ci < candidates@.len() && spec_candidate_ok(
                    *old(self),
                    x as int,
                    y as int,
                    #[trigger] candidates@[ci],
                    property,
                ) && (forall|cj: int|
                    0 <= cj < ci ==> !spec_candidate_ok(
                        *old(self),
                        x as int,
                        y as int,
                        #[trigger] candidates@[cj],
                        property,
                    )) && old(self).spec_diffuse_witness(
                    *final(self),
                    x as int,
                    y as int,
                    candidates@[ci].0 as int,
                    candidates@[ci].1 as int,
                    property,
                ),
            spread ==> exists|nx: int, ny: int|
                old(self).spec_diffuse_witness(
                    *final(self),
                    x as int,
                    y as int,
                    nx,
                    ny,
                    property,
                ),
    {
        let source = self.get(x, y).unwrap();
        let source_value = source.get_property(property);
        let source_is_pure = source.is_pure_source(property);
        let n = candidates.len();
        let mut ci: usize = 0;
        let mut found = false;
        let mut tx: isize = 0;
        let mut ty: isize = 0;
        while ci < n && !found
            invariant
                ci <= n,
                *self == *old(self),
                forall|cj: int|
                    0 <= cj < ci ==> !spec_candidate_ok(
                        *old(self),
                        x as int,
                        y as int,
                        #[trigger] candidates@[cj],
                        property,
                    ),
                found ==> ({
                    &&& ci < n
                    &&& (tx, ty) == candidates@[ci as int]
                    &&& spec_neighbor8(x as int, y as int, tx as int, ty as int)
                    &&& self.spec_in_bounds(tx as int, ty as int)
                    &&& spec_diffusion_target_ok(
                        source,
                        self.grid()[self.spec_index(tx as int, ty as int)],
                        property,
                    )
                }),
            decreases n - ci + if found { 0int } else { 1int },
        {
            let (cx, cy) = candidates[ci];
            if let Some(t) = self.get(cx, cy) {
                let eligible = (!t.is_empty() && source_is_pure) || (t.get_property(property)
                    < source_value && t.property_accept_potential(property) > 0);
                if eligible {
                    tx = cx;
                    ty = cy;
                    found = true;
                }
            }
            if !found {
                ci += 1;
            }
        }
        if !found {
            return false;
        }
        let target = self.get(tx, ty).unwrap();
        let diffuse = source.property_diffuse_potential(property);
        let accept = target.property_accept_potential(property);
        let transfer = if diffuse < accept {
            diffuse
        } else {
            accept
        };
        let i = self.coords_to_index(x, y).unwrap();
        let j = self.coords_to_index(tx, ty).unwrap();
        proof {
            self.lemma_index_bounds(x as int, y as int);
            self.lemma_index_bounds(tx as int, ty as int);
            self.lemma_index_injective(x as int, y as int, tx as int, ty as int);
        }
        let mut new_target = target;
        new_target.set_property(property, target.get_property(property) + transfer);
        self.cells[j] = new_target;
        let mut new_source = source;
        new_source.set_property(property, source_value - transfer);
        self.cells[i] = new_source;
        self.check_depletion(x, y, property);
        proof {
            assert(old(self).spec_diffuse_witness(
                *self,
                x as int,
                y as int,
                tx as int,
                ty as int,
                property,
            ));
            assert(spec_candidate_ok(
                *old(self),
                x as int,
                y as int,
                candidates@[ci as int],
                property,
            ));
        }
        true
    }

    /// Property diffusion phase for the cell at `(x, y)`: a sufficiently
    /// saturated cell offers the property to one of its eight neighbours,
    /// visited in a freshly shuffled order.
    fn update_property(&mut self, x: isize, y: isize, property: CellProperty)
        requires
            old(self).wf(),
            old(self).spec_in_bounds(x as int, y as int),
        ensures
            final(self).wf(),
            final(self).spec_width() == old(self).spec_width(),
            final(self).spec_height() == old(self).spec_height(),
            final(self).spec_table() == old(self).spec_table(),
            final(self).spec_counter() == old(self).spec_counter(),
            ({
                let c = old(self).grid()[old(self).spec_index(x as int, y as int)];
                c.kind == CellType::Empty || c.spec_value(property) < c.spec_min_saturation(
                    property,
                )
            }) ==> *final(self) == *old(self),
            *final(self) == *old(self) || exists|nx: int, ny: int|
                old(self).spec_diffuse_witness(
                    *final(self),
                    x as int,
                    y as int,
                    nx,
                    ny,
                    property,
                ),
            ({
                let c = old(self).grid()[old(self).spec_index(x as int, y as int)];
                c.kind != CellType::Empty && c.spec_value(property) >= c.spec_min_saturation(
                    property,
                ) && exists|nx: int, ny: int|
                    spec_neighbor8(x as int, y as int, nx, ny) && old(self).spec_in_bounds(nx, ny)
                        && spec_diffusion_target_ok(
                        c,
                        old(self).grid()[#[trigger] old(self).spec_index(nx, ny)],
                        property,
                    )
            }) ==> exists|nx: int, ny: int|
                old(self).spec_diffuse_witness(
                    *final(self),
                    x as int,
                    y as int,
                    nx,
                    ny,
                    property,
                ),
            spec_no_pure_sources(old(self).grid()) ==> (forall|k: CellType|
                count_kind(final(self).grid(), k) == count_kind(old(self).grid(), k))
                && spec_no_pure_sources(final(self).grid()),
    {
        let source = self.get(x, y).unwrap();
        if source.is_empty() {
            return;
        }
        if source.get_property(property) < source.property_min_saturation(property) {
            return;
        }
        let mut candidates: Vec<(isize, isize)> = Vec::new();
        candidates.push((x, y + 1));
        candidates.push((x - 1, y + 1));
        candidates.push((x + 1, y + 1));
        candidates.push((x - 1, y));
        candidates.push((x + 1, y));
        candidates.push((x, y - 1));
        candidates.push((x - 1, y - 1));
        candidates.push((x + 1, y - 1));
        let ghost before = candidates@;
        rng::shuffle_coords(&mut candidates);
        proof {
            broadcast use vstd::seq_lib::group_to_multiset_ensures;

            assert forall|ci: int| 0 <= ci < candidates@.len() implies spec_neighbor8(
                x as int,
                y as int,
                (#[trigger] candidates@[ci]).0 as int,
                candidates@[ci].1 as int,
            ) by {
                let e = candidates@[ci];
                assert(candidates@.contains(e));
                assert(before.to_multiset().count(e) > 0);
                assert(before.contains(e));
                let k = choose|k: int| 0 <= k < before.len() && before[k] == e;
            }
        }
        let spread = self.try_spread_property(x, y, &candidates, property);
        proof {
            if spec_no_pure_sources(old(self).grid()) {
                lemma_diffusion_preserves_kinds(*old(self), *self, x as int, y as int, property);
            }
            broadcast use vstd::seq_lib::group_to_multiset_ensures;

            let pre = *old(self);
            let c = pre.grid()[pre.spec_index(x as int, y as int)];
            if exists|nx: int, ny: int|
                spec_neighbor8(x as int, y as int, nx, ny) && pre.spec_in_bounds(nx, ny)
                    && spec_diffusion_target_ok(
                    c,
                    pre.grid()[#[trigger] pre.spec_index(nx, ny)],
                    property,
                ) {
                let (nx, ny) = choose|nx: int, ny: int|
                    spec_neighbor8(x as int, y as int, nx, ny) && pre.spec_in_bounds(nx, ny)
                        && spec_diffusion_target_ok(
                        c,
                        pre.grid()[#[trigger] pre.spec_index(nx, ny)],
                        property,
                    );
                // the pre-shuffle list holds every eight-neighbour coordinate
                assert(exists|k: int|
                    0 <= k < before.len() && (#[trigger] before[k]).0 as int == nx && before[k].1
                        as int == ny) by {
                    if (nx, ny) == (x as int, y as int + 1) {
                        assert(before[0].0 as int == nx && before[0].1 as int == ny);
                    } else if (nx, ny) == (x as int - 1, y as int + 1) {
                        assert(before[1].0 as int == nx && before[1].1 as int == ny);
                    } else if (nx, ny) == (x as int + 1, y as int + 1) {
                        assert(before[2].0 as int == nx && before[2].1 as int == ny);
                    } else if (nx, ny) == (x as int - 1, y as int) {
                        assert(before[3].0 as int == nx && before[3].1 as int == ny);
                    } else if (nx, ny) == (x as int + 1, y as int) {
                        assert(before[4].0 as int == nx && before[4].1 as int == ny);
                    } else if (nx, ny) == (x as int, y as int - 1) {
                        assert(before[5].0 as int == nx && before[5].1 as int == ny);
                    } else if (nx, ny) == (x as int - 1, y as int - 1) {
                        assert(before[6].0 as int == nx && before[6].1 as int == ny);
                    } else {
                        assert(before[7].0 as int == nx && before[7].1 as int == ny);
                    }
                }
                let k = choose|k: int|
                    0 <= k < before.len() && (#[trigger] before[k]).0 as int == nx && before[k].1
                        as int == ny;
                let e = before[k];
                assert(before.contains(e));
                assert(candidates@.to_multiset().count(e) > 0);
                assert(candidates@.contains(e));
                let ci = choose|ci: int| 0 <= ci < candidates@.len() && candidates@[ci] == e;
                assert(spec_candidate_ok(pre, x as int, y as int, candidates@[ci], property));
                assert(spread);
            }
        }
    }
}

impl Sandbox {
    /// One cell's turn within a tick: out-of-range, empty and
    /// already-updated slots are skipped untouched; otherwise reactions
    /// with the neighbours are resolved first, and they pre-empt the rest;
    /// if none fired, the cell moves, then diffuses its properties from
    /// wherever it settled.
    #[verifier::rlimit(60)]
    fn update_cell(&mut self, x: isize, y: isize)
        requires
            old(self).wf(),
        ensures
            final(self).wf(),
            final(self).spec_width() == old(self).spec_width(),
            final(self).spec_height() == old(self).spec_height(),
            final(self).spec_table() == old(self).spec_table(),
            final(self).spec_counter() == old(self).spec_counter(),
            !old(self).spec_in_bounds(x as int, y as int) ==> *final(self) == *old(self),
            (old(self).spec_in_bounds(x as int, y as int) && ({
                let c = old(self).grid()[old(self).spec_index(x as int, y as int)];
                c.kind == CellType::Empty || c.last_updated == old(self).spec_counter()
            })) ==> *final(self) == *old(self),
            (old(self).spec_table().len() == 0 && spec_no_pure_sources(old(self).grid())) ==> (
            forall|k: CellType|
                count_kind(final(self).grid(), k) == count_kind(old(self).grid(), k))
                && spec_no_pure_sources(final(self).grid()),
            spec_lone_settler(
                *old(self),
                x as int,
                y as int,
                old(self).spec_counter(),
            ) ==> final(self).grid() == spec_swapped(
                old(self).grid(),
                old(self).spec_index(x as int, y as int),
                old(self).spec_index(x as int, y as int + 1),
                old(self).spec_counter(),
            ),
            spec_lone_react_pair(
                *old(self),
                x as int,
                y as int - 1,
                old(self).spec_counter(),
            ) ==> final(self).grid() == spec_reacted_pair(
                *old(self),
                x as int,
                y as int - 1,
                old(self).spec_counter(),
            ),
            spec_lone_floor_powder(*old(self), x as int, y as int) ==> *final(self) == *old(
                self,
            ),
            spec_lone_blocked_liquid(
                *old(self),
                x as int,
                y as int,
                old(self).spec_counter(),
            ) ==> spec_liquid_moved(
                *old(self),
                final(self).grid(),
                x as int,
                y as int,
                old(self).spec_counter(),
            ),
            (old(self).spec_in_bounds(x as int, y as int) && ({
                let c = old(self).grid()[old(self).spec_index(x as int, y as int)];
                c.kind != CellType::Empty && c.last_updated != old(self).spec_counter()
            })) ==> (exists|nx: int, ny: int, ri: int|
                old(self).spec_react_witness(*final(self), x as int, y as int, nx, ny, ri)) || (
            exists|mid: Sandbox, pos: (isize, isize)|
                old(self).spec_movement_outcome(mid, x as int, y as int, pos)
                    && mid.spec_in_bounds(pos.0 as int, pos.1 as int) && (*final(self) == mid
                    || exists|nx: int, ny: int|
                    mid.spec_diffuse_witness(
                        *final(self),
                        pos.0 as int,
                        pos.1 as int,
                        nx,
                        ny,
                        CellProperty::Moisture,
                    ))),
    {
        let Some(cell) = self.get(x, y) else {
            return;
        };
        if cell.is_empty() {
            return;
        }
        if cell.last_updated == self.update_counter {
            return;
        }
        let fired = self.react_at(x, y);
        if fired {
            proof {
                let pre = *old(self);
                if pre.spec_table().len() == 0 {
                    let (nx, ny, ri) = choose|nx: int, ny: int, ri: int|
                        pre.spec_react_witness(*self, x as int, y as int, nx, ny, ri);
                    assert(false);
                }
                if spec_lone_settler(pre, x as int, y as int, pre.spec_counter())
                    || spec_lone_floor_powder(pre, x as int, y as int)
                    || spec_lone_blocked_liquid(pre, x as int, y as int, pre.spec_counter()) {
                    let (nx, ny, ri) = choose|nx: int, ny: int, ri: int|
                        pre.spec_react_witness(*self, x as int, y as int, nx, ny, ri);
                    pre.lemma_index_injective(x as int, y as int, nx, ny);
                    pre.lemma_index_bounds(nx, ny);
                    assert(pre.grid()[pre.spec_index(nx, ny)].kind == CellType::Empty);
                    assert(false);
                }
                if spec_lone_react_pair(pre, x as int, y as int - 1, pre.spec_counter()) {
                    lemma_lone_react_pair_fired(pre, *self, x as int, y as int);
                }
            }
            return;
        }
        proof {
            let pre = *old(self);
            if spec_lone_react_pair(pre, x as int, y as int - 1, pre.spec_counter()) {
                let i = pre.spec_index(x as int, y as int - 1);
                let j = pre.spec_index(x as int, y as int);
                let a = pre.grid()[i];
                let b = pre.grid()[j];
                assert(pre.spec_neighbor4(x as int, y as int, x as int, y as int - 1));
                assert(pre.spec_table()[0].reactants == (a.kind, b.kind)
                    && pre.spec_table()[0].probability == 100
                    && pre.spec_table()[0].spec_condition_holds(a, b));
                assert(Sandbox::spec_guaranteed_pair(pre.spec_table(), a, b));
                assert(false);
            }
        }
        let pos = self.update_movement(x, y);
        let ghost after_move = *self;
        proof {
            let pre = *old(self);
            if pre.spec_table().len() == 0 && spec_no_pure_sources(pre.grid()) {
                lemma_count_kind_absent(pre.grid(), CellType::Water);
                lemma_count_kind_zero(after_move.grid(), CellType::Water);
                assert(spec_no_pure_sources(after_move.grid()));
            }
            if spec_lone_settler(pre, x as int, y as int, pre.spec_counter()) {
                let i = pre.spec_index(x as int, y as int);
                let below = pre.spec_index(x as int, y as int + 1);
                pre.lemma_index_bounds(x as int, y as int);
                pre.lemma_index_bounds(x as int, y as int + 1);
                pre.lemma_index_injective(x as int, y as int, x as int, y as int + 1);
                let c = pre.grid()[i];
                assert(c.kind.spec_movement() == CellMovement::Powder);
                assert(pre.grid()[below].kind == CellType::Empty);
                assert(pre.spec_can_displace(c, x as int, y as int + 1));
                assert(after_move.grid() == spec_swapped(
                    pre.grid(),
                    i,
                    below,
                    pre.spec_counter(),
                ));
                assert(pos.0 as int == x as int && pos.1 as int == y as int + 1);
            }
            if spec_lone_floor_powder(pre, x as int, y as int) {
                // the bottom row has no in-range slot beneath it, so nothing
                // is open to a powder and the movement phase left it in place
                pre.lemma_index_bounds(x as int, y as int);
                assert(!pre.spec_in_bounds(x as int, y as int + 1));
                assert(after_move == pre);
                assert(pos.0 as int == x as int && pos.1 as int == y as int);
            }
            if spec_lone_blocked_liquid(pre, x as int, y as int, pre.spec_counter()) {
                let i = pre.spec_index(x as int, y as int);
                pre.lemma_index_bounds(x as int, y as int);
                let c = pre.grid()[i];
                assert(c.kind.spec_movement() == CellMovement::Liquid);
                assert(!pre.spec_in_bounds(x as int, y as int + 1));
                if pre.spec_in_bounds(x as int - 1, y as int) {
                    pre.lemma_index_bounds(x as int - 1, y as int);
                    pre.lemma_index_injective(x as int, y as int, x as int - 1, y as int);
                    assert(pre.grid()[pre.spec_index(x as int - 1, y as int)].kind
                        == CellType::Empty);
                    assert(pre.spec_can_displace(c, x as int - 1, y as int));
                }
                if pre.spec_in_bounds(x as int + 1, y as int) {
                    pre.lemma_index_bounds(x as int + 1, y as int);
                    pre.lemma_index_injective(x as int, y as int, x as int + 1, y as int);
                    assert(pre.grid()[pre.spec_index(x as int + 1, y as int)].kind
                        == CellType::Empty);
                    assert(pre.spec_can_displace(c, x as int + 1, y as int));
                }
                assert(pre.spec_in_bounds(x as int - 1, y as int) || pre.spec_in_bounds(
                    x as int + 1,
                    y as int,
                ));
                assert(spec_liquid_moved(
                    pre,
                    after_move.grid(),
                    x as int,
                    y as int,
                    pre.spec_counter(),
                ));
            }
        }
        self.update_property(pos.0, pos.1, CellProperty::Moisture);
        proof {
            let pre = *old(self);
            assert(pre.spec_movement_outcome(after_move, x as int, y as int, pos));
            assert(*self == after_move || exists|nx: int, ny: int|
                after_move.spec_diffuse_witness(
                    *self,
                    pos.0 as int,
                    pos.1 as int,
                    nx,
                    ny,
                    CellProperty::Moisture,
                ));
            if pre.spec_table().len() == 0 && spec_no_pure_sources(pre.grid()) {
                assert(spec_no_pure_sources(after_move.grid()));
            }
            if spec_lone_settler(pre, x as int, y as int, pre.spec_counter()) {
                let below = pre.spec_index(x as int, y as int + 1);
                let moved = after_move.grid()[after_move.spec_index(
                    pos.0 as int,
                    pos.1 as int,
                )];
                assert(moved.moisture < moved.spec_min_saturation(CellProperty::Moisture));
                assert(*self == after_move);
            }
            if spec_lone_floor_powder(pre, x as int, y as int) {
                // diffusion finds no eligible target: every other slot holds
                // empty space, which neither qualifies nor accepts
                assert(after_move == pre);
                if exists|nx: int, ny: int|
                    after_move.spec_diffuse_witness(
                        *self,
                        pos.0 as int,
                        pos.1 as int,
                        nx,
                        ny,
                        CellProperty::Moisture,
                    ) {
                    let (nx, ny) = choose|nx: int, ny: int|
                        after_move.spec_diffuse_witness(
                            *self,
                            pos.0 as int,
                            pos.1 as int,
                            nx,
                            ny,
                            CellProperty::Moisture,
                        );
                    after_move.lemma_index_bounds(nx, ny);
                    after_move.lemma_index_injective(pos.0 as int, pos.1 as int, nx, ny);
                    assert(after_move.grid()[after_move.spec_index(nx, ny)].kind
                        == CellType::Empty);
                    assert(false);
                }
                assert(*self == after_move);
            }
            if spec_lone_blocked_liquid(pre, x as int, y as int, pre.spec_counter()) {
                let i = pre.spec_index(x as int, y as int);
                let ipos = pre.spec_index(pos.0 as int, pos.1 as int);
                if exists|nx: int, ny: int|
                    after_move.spec_diffuse_witness(
                        *self,
                        pos.0 as int,
                        pos.1 as int,
                        nx,
                        ny,
                        CellProperty::Moisture,
                    ) {
                    let (nx, ny) = choose|nx: int, ny: int|
                        after_move.spec_diffuse_witness(
                            *self,
                            pos.0 as int,
                            pos.1 as int,
                            nx,
                            ny,
                            CellProperty::Moisture,
                        );
                    after_move.lemma_index_bounds(nx, ny);
                    after_move.lemma_index_injective(pos.0 as int, pos.1 as int, nx, ny);
                    let j2 = after_move.spec_index(nx, ny);
                    // in the swapped grid every slot but the liquid's rest
                    // position holds empty space
                    if pre.spec_moved_to(after_move, x as int, y as int, x as int - 1, y as int, pos) {
                        pre.lemma_index_bounds(x as int - 1, y as int);
                        pre.lemma_index_injective(x as int, y as int, x as int - 1, y as int);
                        assert(after_move.grid()[j2].kind == CellType::Empty);
                    } else {
                        assert(pre.spec_moved_to(after_move, x as int, y as int, x as int + 1, y as int, pos));
                        pre.lemma_index_bounds(x as int + 1, y as int);
                        pre.lemma_index_injective(x as int, y as int, x as int + 1, y as int);
                        assert(after_move.grid()[j2].kind == CellType::Empty);
                    }
                    assert(false);
                }
                assert(*self == after_move);
                assert(spec_liquid_moved(
                    pre,
                    self.grid(),
                    x as int,
                    y as int,
                    pre.spec_counter(),
                ));
            }
        }
    }

    /// Advance the simulation by exactly one tick: bump the tick counter,
    /// then walk the rows bottom-up (so settled material accumulates before
    /// the cells above fall onto it), scanning each row in a direction
    /// chosen at random to avoid a systematic horizontal bias, and give
    /// every not-yet-updated, non-empty cell its turn.
    #[verifier::loop_isolation(false)]
    pub fn update(&mut self)
        requires
            old(self).wf(),
        ensures
            final(self).wf(),
            final(self).spec_width() == old(self).spec_width(),
            final(self).spec_height() == old(self).spec_height(),
            final(self).spec_table() == old(self).spec_table(),
            final(self).spec_counter() == old(self).spec_next_tick(),
            (old(self).spec_table().len() == 0 && spec_no_pure_sources(old(self).grid())) ==> (
            forall|k: CellType|
                count_kind(final(self).grid(), k) == count_kind(old(self).grid(), k)),
            forall|lx: int, ly: int|
                spec_lone_settler(
                    *old(self),
                    lx,
                    ly,
                    old(self).spec_next_tick(),
                ) ==> final(self).grid() == spec_swapped(
                    old(self).grid(),
                    old(self).spec_index(lx, ly),
                    old(self).spec_index(lx, ly + 1),
                    old(self).spec_next_tick(),
                ),
            forall|lx: int, ly: int|
                spec_lone_react_pair(
                    *old(self),
                    lx,
                    ly,
                    old(self).spec_next_tick(),
                ) ==> final(self).grid() == spec_reacted_pair(
                    *old(self),
                    lx,
                    ly,
                    old(self).spec_next_tick(),
                ),
            forall|lx: int, ly: int|
                spec_lone_floor_powder(*old(self), lx, ly) ==> final(self).grid() == old(
                    self,
                ).grid(),
            forall|lx: int, ly: int|
                spec_lone_blocked_liquid(
                    *old(self),
                    lx,
                    ly,
                    old(self).spec_next_tick(),
                ) ==> spec_liquid_moved(
                    *old(self),
                    final(self).grid(),
                    lx,
                    ly,
                    old(self).spec_next_tick(),
                ),
    {
        self.update_counter = if self.update_counter == 255 {
            0
        } else {
            self.update_counter + 1
        };
        let mut yy: usize = self.height;
        while yy > 0
            invariant
                yy <= self.height,
                self.wf(),
                self.spec_width() == old(self).spec_width(),
                self.spec_height() == old(self).spec_height(),
                self.spec_table() == old(self).spec_table(),
                self.spec_counter() == old(self).spec_next_tick(),
                (old(self).spec_table().len() == 0 && spec_no_pure_sources(old(self).grid()))
                    ==> (forall|k: CellType|
                    count_kind(self.grid(), k) == count_kind(old(self).grid(), k))
                    && spec_no_pure_sources(self.grid()),
                forall|lx: int, ly: int|
                    #[trigger] spec_lone_settler(
                        *old(self),
                        lx,
                        ly,
                        old(self).spec_next_tick(),
                    ) ==> if ly >= yy {
                        self.grid() == spec_swapped(
                            old(self).grid(),
                            old(self).spec_index(lx, ly),
                            old(self).spec_index(lx, ly + 1),
                            old(self).spec_next_tick(),
                        )
                    } else {
                        self.grid() == old(self).grid()
                    },
                forall|lx: int, ly: int|
                    #[trigger] spec_lone_react_pair(
                        *old(self),
                        lx,
                        ly,
                        old(self).spec_next_tick(),
                    ) ==> if ly + 1 >= yy {
                        self.grid() == spec_reacted_pair(
                            *old(self),
                            lx,
                            ly,
                            old(self).spec_next_tick(),
                        )
                    } else {
                        self.grid() == old(self).grid()
                    },
                forall|lx: int, ly: int|
                    #[trigger] spec_lone_floor_powder(*old(self), lx, ly) ==> self.grid() == old(
                        self,
                    ).grid(),
                forall|lx: int, ly: int|
                    #[trigger] spec_lone_blocked_liquid(
                        *old(self),
                        lx,
                        ly,
                        old(self).spec_next_tick(),
                    ) ==> if ly >= yy {
                        spec_liquid_moved(
                            *old(self),
                            self.grid(),
                            lx,
                            ly,
                            old(self).spec_next_tick(),
                        )
                    } else {
                        self.grid() == old(self).grid()
                    },
            decreases yy,
        {
            yy -= 1;
            let y = yy as isize;
            let scan_right = rng::random_bool();
            let mut i: usize = 0;
            while i < self.width
                invariant
                    i <= self.width,
                    yy < self.height,
                    y == yy as isize,
                    self.wf(),
                    self.spec_width() == old(self).spec_width(),
                    self.spec_height() == old(self).spec_height(),
                    self.spec_table() == old(self).spec_table(),
                    self.spec_counter() == old(self).spec_next_tick(),
                    (old(self).spec_table().len() == 0 && spec_no_pure_sources(
                        old(self).grid(),
                    )) ==> (forall|k: CellType|
                        count_kind(self.grid(), k) == count_kind(old(self).grid(), k))
                        && spec_no_pure_sources(self.grid()),
                    forall|lx: int, ly: int|
                        #[trigger] spec_lone_settler(
                            *old(self),
                            lx,
                            ly,
                            old(self).spec_next_tick(),
                        ) ==> if ly > yy || (ly == yy && ((scan_right && lx < i) || (!scan_right
                            && lx >= self.spec_width() - i))) {
                            self.grid() == spec_swapped(
                                old(self).grid(),
                                old(self).spec_index(lx, ly),
                                old(self).spec_index(lx, ly + 1),
                                old(self).spec_next_tick(),
                            )
                        } else {
                            self.grid() == old(self).grid()
                        },
                    forall|lx: int, ly: int|
                        #[trigger] spec_lone_react_pair(
                            *old(self),
                            lx,
                            ly,
                            old(self).spec_next_tick(),
                        ) ==> if ly + 1 > yy || (ly + 1 == yy && ((scan_right && lx < i) || (
                        !scan_right && lx >= self.spec_width() - i))) {
                            self.grid() == spec_reacted_pair(
                                *old(self),
                                lx,
                                ly,
                                old(self).spec_next_tick(),
                            )
                        } else {
                            self.grid() == old(self).grid()
                        },
                    forall|lx: int, ly: int|
                        #[trigger] spec_lone_floor_powder(*old(self), lx, ly) ==> self.grid()
                            == old(self).grid(),
                    forall|lx: int, ly: int|
                        #[trigger] spec_lone_blocked_liquid(
                            *old(self),
                            lx,
                            ly,
                            old(self).spec_next_tick(),
                        ) ==> if ly > yy || (ly == yy && ((scan_right && lx < i) || (!scan_right
                            && lx >= self.spec_width() - i))) {
                            spec_liquid_moved(
                                *old(self),
                                self.grid(),
                                lx,
                                ly,
                                old(self).spec_next_tick(),
                            )
                        } else {
                            self.grid() == old(self).grid()
                        },
                decreases self.width - i,
            {
                let x: isize = if scan_right {
                    i as isize
                } else {
                    (self.width - 1 - i) as isize
                };
                let ghost before_cell = *self;
                self.update_cell(x, y);
                proof {
                    assert forall|lx: int, ly: int|
                        #[trigger] spec_lone_settler(
                            *old(self),
                            lx,
                            ly,
                            old(self).spec_next_tick(),
                        ) implies if ly > yy || (ly == yy && ((scan_right && lx < i + 1) || (
                        !scan_right && lx >= self.spec_width() - i - 1))) {
                        self.grid() == spec_swapped(
                            old(self).grid(),
                            old(self).spec_index(lx, ly),
                            old(self).spec_index(lx, ly + 1),
                            old(self).spec_next_tick(),
                        )
                    } else {
                        self.grid() == old(self).grid()
                    } by {
                        lemma_lone_settler_step(
                            *old(self),
                            before_cell,
                            *self,
                            lx,
                            ly,
                            x as int,
                            y as int,
                        );
                    }
                    assert forall|lx: int, ly: int|
                        #[trigger] spec_lone_react_pair(
                            *old(self),
                            lx,
                            ly,
                            old(self).spec_next_tick(),
                        ) implies if ly + 1 > yy || (ly + 1 == yy && ((scan_right && lx < i + 1)
                        || (!scan_right && lx >= self.spec_width() - i - 1))) {
                        self.grid() == spec_reacted_pair(
                            *old(self),
                            lx,
                            ly,
                            old(self).spec_next_tick(),
                        )
                    } else {
                        self.grid() == old(self).grid()
                    } by {
                        lemma_lone_react_pair_step(
                            *old(self),
                            before_cell,
                            *self,
                            lx,
                            ly,
                            x as int,
                            y as int,
                        );
                    }
                    assert forall|lx: int, ly: int|
                        #[trigger] spec_lone_floor_powder(*old(self), lx, ly) implies self.grid()
                        == old(self).grid() by {
                        lemma_lone_floor_powder_step(
                            *old(self),
                            before_cell,
                            *self,
                            lx,
                            ly,
                            x as int,
                            y as int,
                        );
                    }
                    assert forall|lx: int, ly: int|
                        #[trigger] spec_lone_blocked_liquid(
                            *old(self),
                            lx,
                            ly,
                            old(self).spec_next_tick(),
                        ) implies if ly > yy || (ly == yy && ((scan_right && lx < i + 1) || (
                        !scan_right && lx >= self.spec_width() - i - 1))) {
                        spec_liquid_moved(
                            *old(self),
                            self.grid(),
                            lx,
                            ly,
                            old(self).spec_next_tick(),
                        )
                    } else {
                        self.grid() == old(self).grid()
                    } by {
                        lemma_lone_blocked_liquid_step(
                            *old(self),
                            before_cell,
                            *self,
                            lx,
                            ly,
                            x as int,
                            y as int,
                        );
                    }
                }
                i += 1;
            }
        }
    }
}

impl Sandbox {
    /// Write one RGBA quadruple per cell into `frame`, row-major, each
    /// colour derived solely from the cell's kind and moisture. Purely a
    /// presentation read: the grid is not touched.
    #[verifier::loop_isolation(false)]
    pub fn draw(&self, frame: &mut Vec<u8>)
        requires
            self.wf(),
            old(frame)@.len() == self.grid().len() * 4,
        ensures
            final(frame)@.len() == old(frame)@.len(),
            forall|i: int|
                0 <= i < self.grid().len() ==> final(frame)@.subrange(4 * i, 4 * i + 4) == (
                #[trigger] self.grid()[i]).spec_color(),
    {
        let n = self.cells.len();
        let total = frame.len();
        let mut idx: usize = 0;
        while idx < n
            invariant
                idx <= n,
                total == frame@.len(),
                frame@.len() == old(frame)@.len(),
                forall|i: int|
                    0 <= i < idx ==> frame@.subrange(4 * i, 4 * i + 4) == (
                    #[trigger] self.grid()[i]).spec_color(),
            decreases n - idx,
        {
            let rgba = self.cells[idx].color_rgba();
            let base: usize = 4 * idx;
            frame[base] = rgba[0];
            frame[base + 1] = rgba[1];
            frame[base + 2] = rgba[2];
            frame[base + 3] = rgba[3];
            proof {
                assert(frame@.subrange(4 * idx as int, 4 * idx as int + 4) =~= self.grid()[
                    idx as int].spec_color());
                assert(forall|i: int|
                    0 <= i < idx ==> frame@.subrange(4 * i, 4 * i + 4) =~= (
                    #[trigger] self.grid()[i]).spec_color());
            }
            idx += 1;
        }
    }
}

/// Moisture level at or below which a drained pure source is exhausted.
pub const DEPLETION_THRESHOLD: u32 = 5;

/// A freshly constructed grid reads empty everywhere: in a grid whose
/// slots all hold the empty cell, the slot behind any in-range coordinate
/// pair is the empty cell.
pub proof fn lemma_fresh_grid_reads_empty(s: Sandbox, x: int, y: int)
    requires
        s.wf(),
        forall|i: int|
            0 <= i < s.grid().len() ==> s.grid()[i] == (Cell {
                kind: CellType::Empty,
                moisture: 0,
                last_updated: 0,
            }),
        s.spec_in_bounds(x, y),
    ensures
        s.grid()[s.spec_index(x, y)] == (Cell {
            kind: CellType::Empty,
            moisture: 0,
            last_updated: 0,
        }),
{
    s.lemma_index_bounds(x, y);
}

/// Placing a cell and reading the same in-range coordinate back returns
/// exactly the placed cell, while every other in-range coordinate reads
/// what it held before.
pub proof fn lemma_place_then_get(pre: Sandbox, post: Sandbox, x: int, y: int, cell: Cell)
    requires
        pre.wf(),
        pre.spec_in_bounds(x, y),
        post.spec_width() == pre.spec_width(),
        post.spec_height() == pre.spec_height(),
        post.grid() == pre.grid().update(pre.spec_index(x, y), cell),
    ensures
        post.grid()[post.spec_index(x, y)] == cell,
        forall|x2: int, y2: int|
            post.spec_in_bounds(x2, y2) && (x2, y2) != (x, y) ==> post.grid()[#[trigger] post.spec_index(
                x2,
                y2,
            )] == pre.grid()[pre.spec_index(x2, y2)],
{
    pre.lemma_index_bounds(x, y);
    assert forall|x2: int, y2: int|
        post.spec_in_bounds(x2, y2) && (x2, y2) != (x, y) implies post.grid()[#[trigger] post.spec_index(
        x2,
        y2,
    )] == pre.grid()[pre.spec_index(x2, y2)] by {
        pre.lemma_index_bounds(x2, y2);
        pre.lemma_index_injective(x2, y2, x, y);
    }
}

/// One diffusion step is bounded on both ends: the transferred amount
/// never exceeds what the source holds, and never lifts the target above
/// its capacity.
pub proof fn lemma_diffusion_transfer_bounded(src: Cell, tgt: Cell, property: CellProperty)
    requires
        tgt.wf(),
    ensures
        spec_transfer_amount(src, tgt, property) <= src.spec_value(property),
        tgt.spec_value(property) + spec_transfer_amount(src, tgt, property) <= tgt.spec_capacity(
            property,
        ),
{
}

/// A powder whose three downward targets are blocked stays exactly where
/// it is: powder never takes a pure sideways step, however open the sides
/// are.
pub proof fn lemma_blocked_powder_stays(pre: Sandbox, post: Sandbox, x: int, y: int, pos: (
    isize,
    isize,
))
    requires
        pre.spec_move_rel(post, x, y, 1, false, pos),
        ({
            let c = pre.grid()[pre.spec_index(x, y)];
            &&& !pre.spec_can_displace(c, x, y + 1)
            &&& !pre.spec_can_displace(c, x - 1, y + 1)
            &&& !pre.spec_can_displace(c, x + 1, y + 1)
        }),
    ensures
        post == pre,
        pos.0 as int == x && pos.1 as int == y,
{
}

/// A liquid whose three downward targets are blocked but with an open
/// side flows sideways: it leaves its column and swaps into one of the
/// open side slots.
pub proof fn lemma_blocked_liquid_spreads(pre: Sandbox, post: Sandbox, x: int, y: int, pos: (
    isize,
    isize,
))
    requires
        pre.spec_move_rel(post, x, y, 1, true, pos),
        ({
            let c = pre.grid()[pre.spec_index(x, y)];
            &&& !pre.spec_can_displace(c, x, y + 1)
            &&& !pre.spec_can_displace(c, x - 1, y + 1)
            &&& !pre.spec_can_displace(c, x + 1, y + 1)
            &&& (pre.spec_can_displace(c, x - 1, y) || pre.spec_can_displace(c, x + 1, y))
        }),
    ensures
        pre.spec_moved_to(post, x, y, x - 1, y, pos) || pre.spec_moved_to(post, x, y, x + 1, y, pos),
        pos.1 as int == y && pos.0 as int != x,
{
}

/// The scenario behind the settling law: the grid holds exactly one
/// non-empty cell, a dry powder at `(x, y)` not yet stamped with tick `t`,
/// with at least one free row beneath it, under a rule table in which no
/// rule consumes empty space.
pub open spec fn spec_lone_settler(s: Sandbox, x: int, y: int, t: u8) -> bool {
    let i = s.spec_index(x, y);
    let c = s.grid()[i];
    &&& s.wf()
    &&& s.spec_in_bounds(x, y)
    &&& y + 1 < s.spec_height()
    &&& c.kind.spec_movement() == CellMovement::Powder
    &&& c.spec_value(CellProperty::Moisture) < c.spec_min_saturation(CellProperty::Moisture)
    &&& c.last_updated != t
    &&& forall|j: int|
        0 <= j < s.grid().len() && j != i ==> (#[trigger] s.grid()[j]).kind == CellType::Empty
    &&& forall|ri: int|
        0 <= ri < s.spec_table().len() ==> (#[trigger] s.spec_table()[ri]).reactants.0
            != CellType::Empty && s.spec_table()[ri].reactants.1 != CellType::Empty
}

/// Settling chains, which gives the N-tick settling law by induction: the
/// state a tick leaves behind after the lone powder's one-row drop is
/// again a lone-settler scenario one row lower, as long as another free
/// row lies beneath. With `update`'s one-row clause this pins the descent
/// to exactly one row per tick until the powder reaches the bottom row.
pub proof fn lemma_settler_chains(pre: Sandbox, post: Sandbox, x: int, y: int)
    requires
        spec_lone_settler(pre, x, y, pre.spec_next_tick()),
        post.spec_width() == pre.spec_width(),
        post.spec_height() == pre.spec_height(),
        post.spec_table() == pre.spec_table(),
        post.spec_counter() == pre.spec_next_tick(),
        post.grid() == spec_swapped(
            pre.grid(),
            pre.spec_index(x, y),
            pre.spec_index(x, y + 1),
            pre.spec_next_tick(),
        ),
        y + 2 < pre.spec_height(),
    ensures
        spec_lone_settler(post, x, y + 1, post.spec_next_tick()),
{
    let i = pre.spec_index(x, y);
    let below = pre.spec_index(x, y + 1);
    pre.lemma_index_bounds(x, y);
    pre.lemma_index_bounds(x, y + 1);
    pre.lemma_index_injective(x, y, x, y + 1);
    assert(post.grid()[below].kind == pre.grid()[i].kind);
    assert(post.grid()[below].moisture == pre.grid()[i].moisture);
    assert(post.grid()[below].last_updated == post.spec_counter());
    assert(post.spec_counter() != post.spec_next_tick());
    assert forall|j: int| 0 <= j < post.grid().len() && j != below implies (#[trigger] post.grid()[
        j]).kind == CellType::Empty by {
        if j != i {
            assert(post.grid()[j] == pre.grid()[j]);
        }
    }
    assert forall|j: int| 0 <= j < post.grid().len() implies (#[trigger] post.grid()[j]).wf() by {
        if j != i && j != below {
            assert(post.grid()[j] == pre.grid()[j]);
        }
    }
}

/// One `update_cell` call keeps the settling invariant: slots other than
/// the lone powder's are empty in both the untouched and the settled grid,
/// so visiting them changes nothing, and visiting the powder itself drops
/// it by exactly one row.
proof fn lemma_lone_settler_step(
    orig: Sandbox,
    pre: Sandbox,
    post: Sandbox,
    lx: int,
    ly: int,
    x: int,
    y: int,
)
    requires
        spec_lone_settler(orig, lx, ly, orig.spec_next_tick()),
        pre.wf(),
        pre.spec_in_bounds(x, y),
        pre.spec_width() == orig.spec_width(),
        pre.spec_height() == orig.spec_height(),
        pre.spec_table() == orig.spec_table(),
        pre.spec_counter() == orig.spec_next_tick(),
        post.spec_counter() == pre.spec_counter(),
        pre.grid() == orig.grid() || pre.grid() == spec_swapped(
            orig.grid(),
            orig.spec_index(lx, ly),
            orig.spec_index(lx, ly + 1),
            orig.spec_next_tick(),
        ),
        ({
            let c = pre.grid()[pre.spec_index(x, y)];
            c.kind == CellType::Empty || c.last_updated == pre.spec_counter()
        }) ==> post == pre,
        spec_lone_settler(pre, x, y, pre.spec_counter()) ==> post.grid() == spec_swapped(
            pre.grid(),
            pre.spec_index(x, y),
            pre.spec_index(x, y + 1),
            pre.spec_counter(),
        ),
    ensures
        pre.grid() == spec_swapped(
            orig.grid(),
            orig.spec_index(lx, ly),
            orig.spec_index(lx, ly + 1),
            orig.spec_next_tick(),
        ) ==> post.grid() == pre.grid(),
        pre.grid() == orig.grid() && (x, y) != (lx, ly) ==> post.grid() == pre.grid(),
        pre.grid() == orig.grid() && (x, y) == (lx, ly) ==> post.grid() == spec_swapped(
            orig.grid(),
            orig.spec_index(lx, ly),
            orig.spec_index(lx, ly + 1),
            orig.spec_next_tick(),
        ),
{
    let i = orig.spec_index(lx, ly);
    let below = orig.spec_index(lx, ly + 1);
    let settled = spec_swapped(orig.grid(), i, below, orig.spec_next_tick());
    orig.lemma_index_bounds(lx, ly);
    orig.lemma_index_bounds(lx, ly + 1);
    orig.lemma_index_injective(lx, ly, lx, ly + 1);
    let ixy = pre.spec_index(x, y);
    pre.lemma_index_bounds(x, y);
    if pre.grid() == orig.grid() {
        if (x, y) == (lx, ly) {
            assert(spec_lone_settler(pre, x, y, pre.spec_counter()));
        } else {
            pre.lemma_index_injective(x, y, lx, ly);
            assert(pre.grid()[ixy].kind == CellType::Empty);
            assert(post == pre);
        }
    }
    if pre.grid() == settled {
        // the powder has already settled: every slot but `below` is empty,
        // and the settled powder itself is stamped with the current tick
        if ixy == below {
            assert(pre.grid()[ixy].last_updated == pre.spec_counter());
            assert(post == pre);
        } else if ixy == i {
            assert(pre.grid()[ixy].kind == CellType::Empty);
            assert(post == pre);
        } else {
            pre.lemma_index_injective(x, y, lx, ly);
            pre.lemma_index_injective(x, y, lx, ly + 1);
            assert(pre.grid()[ixy] == orig.grid()[ixy]);
            assert(pre.grid()[ixy].kind == CellType::Empty);
            assert(post == pre);
        }
    }
}

/// The scenario behind the reaction-determinism law: the grid holds
/// exactly two vertically adjacent non-empty cells of distinct kinds, the
/// upper one at `(x, y)`, neither stamped with tick `t`, and the rule
/// table holds exactly one rule: it matches (upper, lower), fires with
/// probability one, and carries no condition.
pub open spec fn spec_lone_react_pair(s: Sandbox, x: int, y: int, t: u8) -> bool {
    let i = s.spec_index(x, y);
    let j = s.spec_index(x, y + 1);
    let a = s.grid()[i];
    let b = s.grid()[j];
    &&& s.wf()
    &&& s.spec_in_bounds(x, y)
    &&& y + 1 < s.spec_height()
    &&& a.kind != CellType::Empty
    &&& b.kind != CellType::Empty
    &&& a.kind != b.kind
    &&& a.last_updated != t
    &&& b.last_updated != t
    &&& forall|k: int|
        0 <= k < s.grid().len() && k != i && k != j ==> (#[trigger] s.grid()[k]).kind
            == CellType::Empty
    &&& s.spec_table().len() == 1
    &&& s.spec_table()[0].reactants == (a.kind, b.kind)
    &&& s.spec_table()[0].probability == 100
    &&& s.spec_table()[0].condition is None
}

/// The grid the lone pair's reaction leaves behind: each reactant slot
/// holds its declared product (or empty space), stamped with tick `t`.
pub open spec fn spec_reacted_pair(s: Sandbox, x: int, y: int, t: u8) -> Seq<Cell> {
    let rule = s.spec_table()[0];
    s.grid().update(s.spec_index(x, y), spec_product_cell(rule.spec_product_a(), t)).update(
        s.spec_index(x, y + 1),
        spec_product_cell(rule.spec_product_b(), t),
    )
}

/// The scenario behind the powder-pile law: the grid holds exactly one
/// non-empty cell, a powder on the bottom row, under a rule table in which
/// no rule consumes empty space. With nothing beneath it to fall into and
/// no sideways movement in its class, the pile is static.
pub open spec fn spec_lone_floor_powder(s: Sandbox, x: int, y: int) -> bool {
    let i = s.spec_index(x, y);
    let c = s.grid()[i];
    &&& s.wf()
    &&& s.spec_in_bounds(x, y)
    &&& y + 1 == s.spec_height()
    &&& c.kind.spec_movement() == CellMovement::Powder
    &&& forall|j: int|
        0 <= j < s.grid().len() && j != i ==> (#[trigger] s.grid()[j]).kind == CellType::Empty
    &&& forall|ri: int|
        0 <= ri < s.spec_table().len() ==> (#[trigger] s.spec_table()[ri]).reactants.0
            != CellType::Empty && s.spec_table()[ri].reactants.1 != CellType::Empty
}

/// The scenario behind the liquid-spreads law: the grid holds exactly one
/// non-empty cell, a liquid on the bottom row not yet stamped with tick
/// `t`, with at least one sideways slot in range, under a rule table in
/// which no rule consumes empty space. Vertically walled in, it must flow
/// sideways.
pub open spec fn spec_lone_blocked_liquid(s: Sandbox, x: int, y: int, t: u8) -> bool {
    let i = s.spec_index(x, y);
    let c = s.grid()[i];
    &&& s.wf()
    &&& s.spec_in_bounds(x, y)
    &&& y + 1 == s.spec_height()
    &&& c.kind.spec_movement() == CellMovement::Liquid
    &&& c.last_updated != t
    &&& (0 <= x - 1 || x + 1 < s.spec_width())
    &&& forall|j: int|
        0 <= j < s.grid().len() && j != i ==> (#[trigger] s.grid()[j]).kind == CellType::Empty
    &&& forall|ri: int|
        0 <= ri < s.spec_table().len() ==> (#[trigger] s.spec_table()[ri]).reactants.0
            != CellType::Empty && s.spec_table()[ri].reactants.1 != CellType::Empty
}

/// The grid after the lone blocked liquid's sideways step: it swapped with
/// one of its in-range side slots, both stamped with tick `t`.
pub open spec fn spec_liquid_moved(s: Sandbox, g: Seq<Cell>, x: int, y: int, t: u8) -> bool {
    ||| (s.spec_in_bounds(x - 1, y) && g == spec_swapped(
        s.grid(),
        s.spec_index(x, y),
        s.spec_index(x - 1, y),
        t,
    ))
    ||| (s.spec_in_bounds(x + 1, y) && g == spec_swapped(
        s.grid(),
        s.spec_index(x, y),
        s.spec_index(x + 1, y),
        t,
    ))
}

/// When the lone pair's lower cell reacts, the only possible outcome is
/// the pair's own rule firing against the neighbour above, leaving the
/// declared products behind.
proof fn lemma_lone_react_pair_fired(pre: Sandbox, post: Sandbox, x: int, y: int)
    requires
        spec_lone_react_pair(pre, x, y - 1, pre.spec_counter()),
        exists|nx: int, ny: int, ri: int| pre.spec_react_witness(post, x, y, nx, ny, ri),
    ensures
        post.grid() == spec_reacted_pair(pre, x, y - 1, pre.spec_counter()),
{
    let (nx, ny, ri) = choose|nx: int, ny: int, ri: int|
        pre.spec_react_witness(post, x, y, nx, ny, ri);
    let ia = pre.spec_index(x, y - 1);
    let ib = pre.spec_index(x, y);
    let a = pre.grid()[ia];
    let b = pre.grid()[ib];
    let t = pre.spec_counter();
    let rule = pre.spec_table()[0];
    pre.lemma_index_bounds(x, y - 1);
    pre.lemma_index_bounds(x, y);
    pre.lemma_index_injective(x, y - 1, x, y);
    assert(ri == 0);
    let jn = pre.spec_index(nx, ny);
    pre.lemma_index_bounds(nx, ny);
    pre.lemma_index_injective(x, y, nx, ny);
    if (nx, ny) != (x, y - 1) {
        // any other in-range neighbour of the lower cell is empty, and the
        // single rule consumes no empty space
        pre.lemma_index_injective(x, y - 1, nx, ny);
        assert(pre.grid()[jn].kind == CellType::Empty);
        assert(false);
    }
    assert(jn == ia);
    assert(pre.grid()[jn] == a);
    assert(!(rule.reactants == (b.kind, a.kind)));
    assert(post.grid() == pre.grid().update(ib, spec_product_cell(rule.spec_product_b(), t)).update(
        ia,
        spec_product_cell(rule.spec_product_a(), t),
    ));
    assert(post.grid() =~= spec_reacted_pair(pre, x, y - 1, t));
}

/// One `update_cell` call keeps the pair-reaction invariant: before the
/// pair's lower cell is visited every other visited slot is empty, the
/// visit to the lower cell fires the rule, and afterwards both product
/// slots are stamped, so later visits change nothing.
proof fn lemma_lone_react_pair_step(
    orig: Sandbox,
    pre: Sandbox,
    post: Sandbox,
    lx: int,
    ly: int,
    x: int,
    y: int,
)
    requires
        spec_lone_react_pair(orig, lx, ly, orig.spec_next_tick()),
        pre.wf(),
        pre.spec_in_bounds(x, y),
        pre.spec_width() == orig.spec_width(),
        pre.spec_height() == orig.spec_height(),
        pre.spec_table() == orig.spec_table(),
        pre.spec_counter() == orig.spec_next_tick(),
        pre.grid() == orig.grid() || pre.grid() == spec_reacted_pair(
            orig,
            lx,
            ly,
            orig.spec_next_tick(),
        ),
        y > ly || pre.grid() == spec_reacted_pair(orig, lx, ly, orig.spec_next_tick()),
        ({
            let c = pre.grid()[pre.spec_index(x, y)];
            c.kind == CellType::Empty || c.last_updated == pre.spec_counter()
        }) ==> post == pre,
        spec_lone_react_pair(pre, x, y - 1, pre.spec_counter()) ==> post.grid()
            == spec_reacted_pair(pre, x, y - 1, pre.spec_counter()),
    ensures
        pre.grid() == spec_reacted_pair(orig, lx, ly, orig.spec_next_tick()) ==> post.grid()
            == pre.grid(),
        pre.grid() == orig.grid() && (x, y) != (lx, ly + 1) ==> post.grid() == pre.grid(),
        pre.grid() == orig.grid() && (x, y) == (lx, ly + 1) ==> post.grid() == spec_reacted_pair(
            orig,
            lx,
            ly,
            orig.spec_next_tick(),
        ),
{
    let t = orig.spec_next_tick();
    let ia = orig.spec_index(lx, ly);
    let ib = orig.spec_index(lx, ly + 1);
    let reacted = spec_reacted_pair(orig, lx, ly, t);
    orig.lemma_index_bounds(lx, ly);
    orig.lemma_index_bounds(lx, ly + 1);
    orig.lemma_index_injective(lx, ly, lx, ly + 1);
    let ixy = pre.spec_index(x, y);
    pre.lemma_index_bounds(x, y);
    if pre.grid() == orig.grid() {
        if (x, y) == (lx, ly + 1) {
            assert(spec_lone_react_pair(pre, x, y - 1, pre.spec_counter()));
            assert(post.grid() == spec_reacted_pair(pre, x, y - 1, pre.spec_counter()));
            assert(spec_reacted_pair(pre, x, y - 1, pre.spec_counter()) =~= reacted);
        } else {
            // `y > ly` puts the visit strictly below the pair's upper cell,
            // so the visited slot is neither reactant and must be empty
            pre.lemma_index_injective(x, y, lx, ly);
            pre.lemma_index_injective(x, y, lx, ly + 1);
            assert(pre.grid()[ixy].kind == CellType::Empty);
            assert(post == pre);
        }
    }
    if pre.grid() == reacted {
        if ixy == ia || ixy == ib {
            assert(pre.grid()[ixy].last_updated == pre.spec_counter()
                || pre.grid()[ixy].kind == CellType::Empty);
            assert(post == pre);
        } else {
            pre.lemma_index_injective(x, y, lx, ly);
            pre.lemma_index_injective(x, y, lx, ly + 1);
            assert(pre.grid()[ixy] == orig.grid()[ixy]);
            assert(pre.grid()[ixy].kind == CellType::Empty);
            assert(post == pre);
        }
    }
}

/// One `update_cell` call keeps the powder-pile invariant: the lone floor
/// powder's own visit leaves the grid untouched, and every other slot is
/// empty.
proof fn lemma_lone_floor_powder_step(
    orig: Sandbox,
    pre: Sandbox,
    post: Sandbox,
    lx: int,
    ly: int,
    x: int,
    y: int,
)
    requires
        spec_lone_floor_powder(orig, lx, ly),
        pre.wf(),
        pre.spec_in_bounds(x, y),
        pre.spec_width() == orig.spec_width(),
        pre.spec_height() == orig.spec_height(),
        pre.spec_table() == orig.spec_table(),
        pre.grid() == orig.grid(),
        ({
            let c = pre.grid()[pre.spec_index(x, y)];
            c.kind == CellType::Empty || c.last_updated == pre.spec_counter()
        }) ==> post == pre,
        spec_lone_floor_powder(pre, x, y) ==> post == pre,
    ensures
        post.grid() == pre.grid(),
{
    orig.lemma_index_bounds(lx, ly);
    pre.lemma_index_bounds(x, y);
    if (x, y) == (lx, ly) {
        assert(spec_lone_floor_powder(pre, x, y));
    } else {
        pre.lemma_index_injective(x, y, lx, ly);
        assert(pre.grid()[pre.spec_index(x, y)].kind == CellType::Empty);
    }
}

/// One `update_cell` call keeps the liquid-spreads invariant: before the
/// lone liquid is visited every other slot is empty, its visit swaps it
/// into an open side, and afterwards the moved liquid is stamped, so later
/// visits change nothing.
proof fn lemma_lone_blocked_liquid_step(
    orig: Sandbox,
    pre: Sandbox,
    post: Sandbox,
    lx: int,
    ly: int,
    x: int,
    y: int,
)
    requires
        spec_lone_blocked_liquid(orig, lx, ly, orig.spec_next_tick()),
        pre.wf(),
        pre.spec_in_bounds(x, y),
        pre.spec_width() == orig.spec_width(),
        pre.spec_height() == orig.spec_height(),
        pre.spec_table() == orig.spec_table(),
        pre.spec_counter() == orig.spec_next_tick(),
        pre.grid() == orig.grid() || spec_liquid_moved(
            orig,
            pre.grid(),
            lx,
            ly,
            orig.spec_next_tick(),
        ),
        ({
            let c = pre.grid()[pre.spec_index(x, y)];
            c.kind == CellType::Empty || c.last_updated == pre.spec_counter()
        }) ==> post == pre,
        spec_lone_blocked_liquid(pre, x, y, pre.spec_counter()) ==> spec_liquid_moved(
            pre,
            post.grid(),
            x,
            y,
            pre.spec_counter(),
        ),
    ensures
        spec_liquid_moved(orig, pre.grid(), lx, ly, orig.spec_next_tick()) ==> post.grid()
            == pre.grid(),
        pre.grid() == orig.grid() && (x, y) != (lx, ly) ==> post.grid() == pre.grid(),
        pre.grid() == orig.grid() && (x, y) == (lx, ly) ==> spec_liquid_moved(
            orig,
            post.grid(),
            lx,
            ly,
            orig.spec_next_tick(),
        ),
{
    let t = orig.spec_next_tick();
    let i = orig.spec_index(lx, ly);
    orig.lemma_index_bounds(lx, ly);
    let ixy = pre.spec_index(x, y);
    pre.lemma_index_bounds(x, y);
    if pre.grid() == orig.grid() {
        if (x, y) == (lx, ly) {
            assert(spec_lone_blocked_liquid(pre, x, y, pre.spec_counter()));
            assert(spec_liquid_moved(pre, post.grid(), x, y, pre.spec_counter()));
            assert(spec_liquid_moved(orig, post.grid(), lx, ly, t));
        } else {
            pre.lemma_index_injective(x, y, lx, ly);
            assert(pre.grid()[ixy].kind == CellType::Empty);
            assert(post == pre);
        }
    }
    if orig.spec_in_bounds(lx - 1, ly) && pre.grid() == spec_swapped(
        orig.grid(),
        i,
        orig.spec_index(lx - 1, ly),
        t,
    ) {
        let il = orig.spec_index(lx - 1, ly);
        orig.lemma_index_bounds(lx - 1, ly);
        orig.lemma_index_injective(lx, ly, lx - 1, ly);
        if ixy == il {
            assert(pre.grid()[ixy].last_updated == pre.spec_counter());
            assert(post == pre);
        } else if ixy == i {
            assert(pre.grid()[ixy].kind == CellType::Empty);
            assert(post == pre);
        } else {
            pre.lemma_index_injective(x, y, lx, ly);
            pre.lemma_index_injective(x, y, lx - 1, ly);
            assert(pre.grid()[ixy] == orig.grid()[ixy]);
            assert(pre.grid()[ixy].kind == CellType::Empty);
            assert(post == pre);
        }
    }
    if orig.spec_in_bounds(lx + 1, ly) && pre.grid() == spec_swapped(
        orig.grid(),
        i,
        orig.spec_index(lx + 1, ly),
        t,
    ) {
        let ir = orig.spec_index(lx + 1, ly);
        orig.lemma_index_bounds(lx + 1, ly);
        orig.lemma_index_injective(lx, ly, lx + 1, ly);
        if ixy == ir {
            assert(pre.grid()[ixy].last_updated == pre.spec_counter());
            assert(post == pre);
        } else if ixy == i {
            assert(pre.grid()[ixy].kind == CellType::Empty);
            assert(post == pre);
        } else {
            pre.lemma_index_injective(x, y, lx, ly);
            pre.lemma_index_injective(x, y, lx + 1, ly);
            assert(pre.grid()[ixy] == orig.grid()[ixy]);
            assert(pre.grid()[ixy].kind == CellType::Empty);
            assert(post == pre);
        }
    }
}

/// A kind that appears nowhere is counted zero times.
pub proof fn lemma_count_kind_absent(s: Seq<Cell>, k: CellType)
    requires
        forall|i: int| 0 <= i < s.len() ==> (#[trigger] s[i]).kind != k,
    ensures
        count_kind(s, k) == 0,
    decreases s.len(),
{
    if s.len() > 0 {
        assert(forall|i: int| 0 <= i < s.len() - 1 ==> s.drop_last()[i] == s[i]);
        lemma_count_kind_absent(s.drop_last(), k);
    }
}

/// `c` with the given property set to `v` and every other field unchanged.
pub open spec fn spec_with_value(c: Cell, property: CellProperty, v: u32) -> Cell {
    match property {
        CellProperty::Moisture => Cell { moisture: v, ..c },
    }
}

/// Whether diffusion from the source at `(x, y)` may pick the candidate
/// slot `c`: the slot is in range and its contents are an eligible target.
pub open spec fn spec_candidate_ok(
    s: Sandbox,
    x: int,
    y: int,
    c: (isize, isize),
    property: CellProperty,
) -> bool {
    s.spec_in_bounds(c.0 as int, c.1 as int) && spec_diffusion_target_ok(
        s.grid()[s.spec_index(x, y)],
        s.grid()[s.spec_index(c.0 as int, c.1 as int)],
        property,
    )
}

/// Whether diffusion from `src` may pick `tgt`: either the source
/// regenerates the property and the target is any occupied cell, or the
/// target holds strictly less of the property and can still accept some.
pub open spec fn spec_diffusion_target_ok(src: Cell, tgt: Cell, property: CellProperty) -> bool {
    (tgt.kind != CellType::Empty && src.spec_pure_source(property)) || (tgt.spec_value(property)
        < src.spec_value(property) && tgt.spec_accept_potential(property) > 0)
}

/// The amount one diffusion step moves: the lesser of what the source can
/// give and what the target can take.
pub open spec fn spec_transfer_amount(src: Cell, tgt: Cell, property: CellProperty) -> u32 {
    if src.spec_diffuse_potential(property) < tgt.spec_accept_potential(property) {
        src.spec_diffuse_potential(property)
    } else {
        tgt.spec_accept_potential(property)
    }
}

/// `(nx, ny)` is one of the eight neighbours of `(x, y)`.
pub open spec fn spec_neighbor8(x: int, y: int, nx: int, ny: int) -> bool {
    ||| (nx, ny) == (x, y + 1)
    ||| (nx, ny) == (x - 1, y + 1)
    ||| (nx, ny) == (x + 1, y + 1)
    ||| (nx, ny) == (x - 1, y)
    ||| (nx, ny) == (x + 1, y)
    ||| (nx, ny) == (x, y - 1)
    ||| (nx, ny) == (x - 1, y - 1)
    ||| (nx, ny) == (x + 1, y - 1)
}

/// Without a pure source to deplete, one diffusion step moves moisture but
/// never changes any slot's kind, so every kind's count is preserved.
proof fn lemma_diffusion_preserves_kinds(
    pre: Sandbox,
    post: Sandbox,
    x: int,
    y: int,
    property: CellProperty,
)
    requires
        pre.wf(),
        pre.spec_in_bounds(x, y),
        spec_no_pure_sources(pre.grid()),
        post == pre || exists|nx: int, ny: int|
            pre.spec_diffuse_witness(post, x, y, nx, ny, property),
    ensures
        forall|k: CellType| count_kind(post.grid(), k) == count_kind(pre.grid(), k),
        spec_no_pure_sources(post.grid()),
{
    if post == pre {
    } else {
        let (nx, ny) = choose|nx: int, ny: int|
            pre.spec_diffuse_witness(post, x, y, nx, ny, property);
        let i = pre.spec_index(x, y);
        let j = pre.spec_index(nx, ny);
        let src = pre.grid()[i];
        let tgt = pre.grid()[j];
        let amount = spec_transfer_amount(src, tgt, property);
        pre.lemma_index_bounds(x, y);
        pre.lemma_index_bounds(nx, ny);
        assert(!src.spec_pure_source(property));
        let mid = pre.grid().update(
            j,
            spec_with_value(tgt, property, (tgt.spec_value(property) + amount) as u32),
        ).update(i, spec_with_value(src, property, (src.spec_value(property) - amount) as u32));
        assert(post.grid() == mid);
        assert forall|k: CellType| count_kind(post.grid(), k) == count_kind(pre.grid(), k) by {
            lemma_count_kind_update(
                pre.grid(),
                j,
                spec_with_value(tgt, property, (tgt.spec_value(property) + amount) as u32),
                k,
            );
            lemma_count_kind_update(
                pre.grid().update(
                    j,
                    spec_with_value(tgt, property, (tgt.spec_value(property) + amount) as u32),
                ),
                i,
                spec_with_value(src, property, (src.spec_value(property) - amount) as u32),
                k,
            );
        }
        assert forall|ii: int| 0 <= ii < post.grid().len() implies !(#[trigger] post.grid()[ii]).spec_pure_source(
            CellProperty::Moisture,
        ) by {
            assert(post.grid()[ii].kind == pre.grid()[ii].kind);
        }
    }
}

} // verus!
