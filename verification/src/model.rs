//! The mathematical model of the engine: what a catalog, a cell and a grid
//! are as plain values, and what each operation of the engine makes of them.
//! The contracts of the executable code are stated over these functions.

use crate::grid::GridPosition;
use vstd::prelude::*;

verus! {

/// The codes that one tile forbids in each of the four neighbouring cells.
pub struct ConstraintView {
    pub top: Set<u32>,
    pub right: Set<u32>,
    pub bottom: Set<u32>,
    pub left: Set<u32>,
}

/// One entry of the catalog: a tile's constraint and the name of its asset.
pub struct OptionsView {
    pub constraint: ConstraintView,
    pub asset: Seq<char>,
}

/// One cell: its value once collapsed, the codes it may still take, and
/// whether it has been handed out for rendering.
pub struct CellView {
    pub value: Option<u32>,
    pub candidates: Set<u32>,
    pub rendered: bool,
}

/// The grid, row by row from `y == 0`, and the worklist, last pushed last.
pub struct GridView {
    pub cells: Seq<Seq<CellView>>,
    pub stack: Seq<GridPosition>,
}

/// A grid together with the cell at which a restriction found no candidate
/// left, if one did.
pub struct Progress {
    pub grid: GridView,
    pub failed: Option<GridPosition>,
}

/// The worklist after `p` is pushed: a position already held is not added.
pub open spec fn push_unique(stack: Seq<GridPosition>, p: GridPosition) -> Seq<GridPosition> {
    if stack.contains(p) {
        stack
    } else {
        stack.push(p)
    }
}

/// The codes that every candidate forbids, direction by direction.
pub open spec fn shared_forbidden(
    candidates: Set<u32>,
    catalog: Map<u32, OptionsView>,
) -> ConstraintView {
    ConstraintView {
        top: Set::new(
            |c: u32|
                forall|k: u32| #[trigger]
                    candidates.contains(k) ==> catalog[k].constraint.top.contains(c),
        ),
        right: Set::new(
            |c: u32|
                forall|k: u32| #[trigger]
                    candidates.contains(k) ==> catalog[k].constraint.right.contains(c),
        ),
        bottom: Set::new(
            |c: u32|
                forall|k: u32| #[trigger]
                    candidates.contains(k) ==> catalog[k].constraint.bottom.contains(c),
        ),
        left: Set::new(
            |c: u32|
                forall|k: u32| #[trigger]
                    candidates.contains(k) ==> catalog[k].constraint.left.contains(c),
        ),
    }
}

/// What a cell forbids around it: the stored constraint of its value once it
/// is collapsed, and before that what all of its candidates forbid.
pub open spec fn forbidden_of(cell: CellView, catalog: Map<u32, OptionsView>) -> ConstraintView {
    match cell.value {
        Some(v) => catalog[v].constraint,
        None => shared_forbidden(cell.candidates, catalog),
    }
}

/// The sum of the weights of the first `n` cells of a row.
pub open spec fn row_weight(row: Seq<CellView>, n: nat) -> nat
    decreases n,
{
    if n == 0 {
        0
    } else {
        row_weight(row, (n - 1) as nat) + row[n - 1].weight()
    }
}

/// The sum of the weights of the first `n` rows.
pub open spec fn rows_weight(cells: Seq<Seq<CellView>>, n: nat) -> nat
    decreases n,
{
    if n == 0 {
        0
    } else {
        rows_weight(cells, (n - 1) as nat) + row_weight(cells[n - 1], cells[n - 1].len())
    }
}

/// Those of the first `n` cells of row `y` that are collapsed and not yet
/// rendered, from `x == 0`, each with the asset of its value.
pub open spec fn row_pending(
    row: Seq<CellView>,
    y: int,
    n: nat,
    catalog: Map<u32, OptionsView>,
) -> Seq<(GridPosition, Seq<char>)>
    decreases n,
{
    if n == 0 {
        Seq::empty()
    } else {
        let before = row_pending(row, y, (n - 1) as nat, catalog);
        let c = row[n - 1];
        if c.value is Some && !c.rendered {
            before.push((at(n - 1, y), catalog[c.value->0].asset))
        } else {
            before
        }
    }
}

/// The collapsed and not yet rendered cells of the first `n` rows.
pub open spec fn rows_pending(
    cells: Seq<Seq<CellView>>,
    n: nat,
    catalog: Map<u32, OptionsView>,
) -> Seq<(GridPosition, Seq<char>)>
    decreases n,
{
    if n == 0 {
        Seq::empty()
    } else {
        rows_pending(cells, (n - 1) as nat, catalog) + row_pending(
            cells[n - 1],
            n - 1,
            cells[n - 1].len(),
            catalog,
        )
    }
}

/// The position `(x, y)`.
pub open spec fn at(x: int, y: int) -> GridPosition {
    GridPosition { x: x as u32, y: y as u32 }
}

impl CellView {
    /// A cell is sound when it is collapsed or has a finite, non-empty set of
    /// candidates.
    pub open spec fn sound(self) -> bool {
        self.candidates.finite() && (self.value is None ==> self.candidates.len() > 0)
    }

    /// Every code the cell holds, as value or as candidate, is in `domain`.
    pub open spec fn within(self, domain: Set<u32>) -> bool {
        match self.value {
            Some(v) => domain.contains(v),
            None => self.candidates.subset_of(domain),
        }
    }

    /// How a cell relates to an earlier state of itself under restriction:
    /// its candidates only shrink, a collapsed cell stays as it was, and a
    /// cell that collapsed in between took one of the candidates it had.
    pub open spec fn follows(self, earlier: CellView) -> bool {
        &&& self.candidates.subset_of(earlier.candidates)
        &&& self.candidates.len() <= earlier.candidates.len()
        &&& self.rendered == earlier.rendered
        &&& (earlier.value is Some ==> self == earlier)
        &&& (earlier.value is None && self.value is Some ==> earlier.candidates.contains(
            self.value->0,
        ))
    }

    /// What the cell still weighs in the propagation: nothing once collapsed.
    pub open spec fn weight(self) -> nat {
        if self.value is None {
            self.candidates.len() + 1
        } else {
            0
        }
    }
}

impl GridView {
    /// The grid of `width` by `height` cells in which no cell is collapsed
    /// or rendered, every cell has all of `candidates`, and the worklist is
    /// empty.
    pub open spec fn fresh(width: nat, height: nat, candidates: Set<u32>) -> GridView {
        GridView {
            cells: Seq::new(
                height,
                |y: int|
                    Seq::new(
                        width,
                        |x: int| CellView { value: None, candidates: candidates, rendered: false },
                    ),
            ),
            stack: Seq::empty(),
        }
    }

    pub open spec fn height(self) -> nat {
        self.cells.len()
    }

    pub open spec fn width(self) -> nat {
        if self.cells.len() > 0 {
            self.cells[0].len()
        } else {
            0
        }
    }

    /// Whether `p` lies in the grid.
    pub open spec fn holds(self, p: GridPosition) -> bool {
        p.x < self.width() && p.y < self.height()
    }

    /// The cell at `p`.
    pub open spec fn cell(self, p: GridPosition) -> CellView {
        self.cells[p.y as int][p.x as int]
    }

    /// A grid is well formed when it is a non-empty rectangle whose sides fit
    /// in `u32`, every cell is sound, and the worklist holds cells of the
    /// grid, none twice.
    pub open spec fn wf(self) -> bool {
        &&& 0 < self.height() <= u32::MAX
        &&& 0 < self.width() <= u32::MAX
        &&& forall|y: int| 0 <= y < self.height() ==> (#[trigger] self.cells[y]).len() == self.width()
        &&& forall|p: GridPosition| #[trigger] self.holds(p) ==> self.cell(p).sound()
        &&& self.stack.no_duplicates()
        &&& forall|i: int| 0 <= i < self.stack.len() ==> self.holds(#[trigger] self.stack[i])
    }

    /// Every code in the grid is in `domain`.
    pub open spec fn within(self, domain: Set<u32>) -> bool {
        forall|p: GridPosition| #[trigger] self.holds(p) ==> self.cell(p).within(domain)
    }

    /// The cells that are not collapsed yet.
    pub open spec fn uncollapsed(self) -> Set<(u32, u32)> {
        Set::new(
            |q: (u32, u32)|
                self.holds(GridPosition { x: q.0, y: q.1 }) && self.cell(
                    GridPosition { x: q.0, y: q.1 },
                ).value is None,
        )
    }

    /// The grid with `c` as the cell at `p`.
    pub open spec fn with_cell(self, p: GridPosition, c: CellView) -> GridView {
        GridView {
            cells: self.cells.update(p.y as int, self.cells[p.y as int].update(p.x as int, c)),
            stack: self.stack,
        }
    }

    /// The grid with `p` pushed on the worklist.
    pub open spec fn marked(self, p: GridPosition) -> GridView {
        GridView { cells: self.cells, stack: push_unique(self.stack, p) }
    }

    /// The grid after the cell at `p` is collapsed to `value`: the value is
    /// set, the candidates stay as they were, and `p` is pushed.
    pub open spec fn collapse_at(self, p: GridPosition, value: u32) -> GridView {
        self.with_cell(
            p,
            CellView {
                value: Some(value),
                candidates: self.cell(p).candidates,
                rendered: self.cell(p).rendered,
            },
        ).marked(p)
    }

    /// Whether restricting the cell at `p` by `forbidden` leaves it without a
    /// candidate.
    pub open spec fn restrict_fails(self, p: GridPosition, forbidden: Set<u32>) -> bool {
        self.cell(p).value is None && self.cell(p).candidates.difference(forbidden).len() == 0
    }

    /// The grid after the cell at `p` is restricted by `forbidden`. A
    /// collapsed cell stays as it is, and so does the grid where the
    /// restriction fails. Otherwise the forbidden codes leave the candidates;
    /// if any left, `p` is pushed; and if one candidate remains, the cell
    /// collapses to it.
    pub open spec fn restrict_at(self, p: GridPosition, forbidden: Set<u32>) -> GridView {
        let c = self.cell(p);
        let rest = c.candidates.difference(forbidden);
        if c.value is Some || rest.len() == 0 {
            self
        } else {
            let shrunk = self.with_cell(
                p,
                CellView { value: None, candidates: rest, rendered: c.rendered },
            );
            let noted = if rest.len() < c.candidates.len() {
                shrunk.marked(p)
            } else {
                shrunk
            };
            if rest.len() == 1 {
                noted.collapse_at(p, rest.choose())
            } else {
                noted
            }
        }
    }

    /// The grid with the last position taken off the worklist.
    pub open spec fn popped(self) -> GridView {
        GridView { cells: self.cells, stack: self.stack.drop_last() }
    }

    /// One step of the propagation from `p`: what the cell at `p` forbids
    /// restricts the neighbour above (`y + 1`), then the one to the right,
    /// the one below and the one to the left, as far as they exist. The
    /// first restriction that fails stops the step.
    pub open spec fn relax_at(self, p: GridPosition, catalog: Map<u32, OptionsView>) -> Progress {
        let f = forbidden_of(self.cell(p), catalog);
        Progress { grid: self, failed: None }.then_restrict(
            p.y + 1 < self.height(),
            at(p.x as int, p.y + 1),
            f.top,
        ).then_restrict(p.x + 1 < self.width(), at(p.x + 1, p.y as int), f.right).then_restrict(
            p.y > 0,
            at(p.x as int, p.y - 1),
            f.bottom,
        ).then_restrict(p.x > 0, at(p.x - 1, p.y as int), f.left)
    }

    /// The propagation after at most `n` positions were taken off the
    /// worklist, each followed by its step; it stops where the worklist is
    /// empty or a restriction fails.
    pub open spec fn drain(self, catalog: Map<u32, OptionsView>, n: nat) -> Progress
        decreases n,
    {
        if n == 0 || self.stack.len() == 0 {
            Progress { grid: self, failed: None }
        } else {
            let step = self.popped().relax_at(self.stack.last(), catalog);
            if step.failed is Some {
                step
            } else {
                step.grid.drain(catalog, (n - 1) as nat)
            }
        }
    }

    /// How a grid relates to an earlier state of itself under restriction:
    /// the same size, and every cell follows its earlier state.
    pub open spec fn refines(self, earlier: GridView) -> bool {
        &&& self.width() == earlier.width()
        &&& self.height() == earlier.height()
        &&& forall|p: GridPosition| #[trigger]
            earlier.holds(p) ==> self.cell(p).follows(earlier.cell(p))
    }

    /// What is left to decide in the grid: the sum of the cells' weights.
    pub open spec fn weight(self) -> nat {
        rows_weight(self.cells, self.cells.len())
    }

    /// The cells that are collapsed and not yet rendered, row by row from
    /// `y == 0` and in each row from `x == 0`, each with the asset of its
    /// value.
    pub open spec fn renderable(self, catalog: Map<u32, OptionsView>) -> Seq<
        (GridPosition, Seq<char>),
    > {
        rows_pending(self.cells, self.cells.len(), catalog)
    }

    /// The grid in which every collapsed cell counts as rendered.
    pub open spec fn all_rendered(self) -> GridView {
        GridView {
            cells: Seq::new(
                self.cells.len(),
                |y: int|
                    Seq::new(
                        self.cells[y].len(),
                        |x: int|
                            CellView {
                                value: self.cells[y][x].value,
                                candidates: self.cells[y][x].candidates,
                                rendered: self.cells[y][x].rendered || self.cells[y][x].value is Some,
                            },
                    ),
            ),
            stack: self.stack,
        }
    }
}

impl Progress {
    /// Goes on with one more restriction, unless an earlier one failed or
    /// the neighbour `q` does not exist.
    pub open spec fn then_restrict(self, exists: bool, q: GridPosition, forbidden: Set<u32>) -> Progress {
        if self.failed is Some || !exists {
            self
        } else if self.grid.restrict_fails(q, forbidden) {
            Progress { grid: self.grid, failed: Some(q) }
        } else {
            Progress { grid: self.grid.restrict_at(q, forbidden), failed: None }
        }
    }
}

} // verus!
