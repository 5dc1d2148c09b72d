//! What holds of the model's operations: each keeps a grid well formed,
//! restrictions only take candidates away, and the propagation never adds
//! to the weight of a grid. The engine's loops and the laws rest on these.

use crate::grid::GridPosition;
use crate::model::{
    at, forbidden_of, push_unique, row_weight, rows_weight, CellView, GridView, OptionsView,
    Progress,
};
use vstd::prelude::*;

verus! {

/// Pushing keeps a worklist free of duplicates, adds at most the pushed
/// position, and leaves the positions before it where they were.
pub proof fn lemma_push_unique(stack: Seq<GridPosition>, p: GridPosition)
    requires
        stack.no_duplicates(),
    ensures
        push_unique(stack, p).no_duplicates(),
        push_unique(stack, p).contains(p),
        forall|q: GridPosition| #[trigger]
            push_unique(stack, p).contains(q) <==> stack.contains(q) || q == p,
        stack.len() <= push_unique(stack, p).len() <= stack.len() + 1,
        forall|i: int| 0 <= i < stack.len() ==> #[trigger] push_unique(stack, p)[i] == stack[i],
{
    let pushed = push_unique(stack, p);
    if !stack.contains(p) {
        assert(pushed[stack.len() as int] == p);
        assert forall|q: GridPosition| #[trigger] pushed.contains(q) implies stack.contains(q) || q
            == p by {
            let i = choose|i: int| 0 <= i < pushed.len() && pushed[i] == q;
            if i < stack.len() {
                assert(stack[i] == q);
            }
        }
        assert forall|q: GridPosition| stack.contains(q) || q == p implies #[trigger] pushed.contains(
            q,
        ) by {
            if stack.contains(q) {
                let i = choose|i: int| 0 <= i < stack.len() && stack[i] == q;
                assert(pushed[i] == q);
            }
        }
    }
}

impl GridView {
    /// Replacing one cell by a sound cell keeps the grid well formed and
    /// changes no other cell.
    pub proof fn lemma_with_cell(self, p: GridPosition, c: CellView)
        requires
            self.wf(),
            self.holds(p),
            c.sound(),
        ensures
            self.with_cell(p, c).wf(),
            self.with_cell(p, c).width() == self.width(),
            self.with_cell(p, c).height() == self.height(),
            self.with_cell(p, c).stack == self.stack,
            self.with_cell(p, c).cell(p) == c,
            forall|q: GridPosition|
                self.holds(q) && q != p ==> #[trigger] self.with_cell(p, c).cell(q) == self.cell(q),
    {
        let next = self.with_cell(p, c);
        assert(self.cells[p.y as int].len() == self.width());
        assert(next.cells[0].len() == self.width()) by {
            assert(self.cells[0].len() == self.width());
        }
        assert forall|y: int| 0 <= y < next.height() implies (#[trigger] next.cells[y]).len()
            == next.width() by {
            assert(self.cells[y].len() == self.width());
        }
        assert forall|q: GridPosition| #[trigger] next.holds(q) implies next.cell(q).sound() by {
            assert(self.holds(q));
            assert(self.cells[q.y as int].len() == self.width());
        }
        assert forall|i: int| 0 <= i < next.stack.len() implies next.holds(#[trigger] next.stack[i]) by {
            assert(self.holds(self.stack[i]));
        }
        assert forall|q: GridPosition| self.holds(q) && q != p implies #[trigger] next.cell(q)
            == self.cell(q) by {
            assert(self.cells[q.y as int].len() == self.width());
        }
    }

    /// Pushing a cell of the grid on the worklist keeps the grid well formed.
    pub proof fn lemma_marked(self, p: GridPosition)
        requires
            self.wf(),
            self.holds(p),
        ensures
            self.marked(p).wf(),
            self.marked(p).cells == self.cells,
    {
        let next = self.marked(p);
        lemma_push_unique(self.stack, p);
        assert forall|q: GridPosition| #[trigger] next.holds(q) implies next.cell(q).sound() by {
            assert(self.holds(q));
        }
        assert forall|i: int| 0 <= i < next.stack.len() implies next.holds(#[trigger] next.stack[i]) by {
            let q = next.stack[i];
            assert(next.stack.contains(q));
            if q != p {
                assert(self.stack.contains(q));
                let j = choose|j: int| 0 <= j < self.stack.len() && self.stack[j] == q;
                assert(self.holds(self.stack[j]));
            }
        }
    }

    /// Collapsing a cell keeps the grid well formed, changes no other cell,
    /// and takes the cell out of those that are not collapsed.
    pub proof fn lemma_collapse_at(self, p: GridPosition, value: u32)
        requires
            self.wf(),
            self.holds(p),
        ensures
            self.collapse_at(p, value).wf(),
            self.collapse_at(p, value).width() == self.width(),
            self.collapse_at(p, value).height() == self.height(),
            self.collapse_at(p, value).cell(p).value == Some(value),
            self.collapse_at(p, value).cell(p).candidates == self.cell(p).candidates,
            self.collapse_at(p, value).cell(p).rendered == self.cell(p).rendered,
            forall|q: GridPosition|
                self.holds(q) && q != p ==> #[trigger] self.collapse_at(p, value).cell(q)
                    == self.cell(q),
            self.collapse_at(p, value).uncollapsed() == self.uncollapsed().remove((p.x, p.y)),
    {
        let c = CellView {
            value: Some(value),
            candidates: self.cell(p).candidates,
            rendered: self.cell(p).rendered,
        };
        self.lemma_with_cell(p, c);
        self.with_cell(p, c).lemma_marked(p);
        let next = self.collapse_at(p, value);
        assert forall|q: (u32, u32)|
            next.uncollapsed().contains(q) <==> self.uncollapsed().remove((p.x, p.y)).contains(
                q,
            ) by {
            let qp = GridPosition { x: q.0, y: q.1 };
            if self.holds(qp) && qp != p {
                assert(next.cell(qp) == self.cell(qp));
            }
        }
        assert(next.uncollapsed() =~= self.uncollapsed().remove((p.x, p.y)));
    }

    /// Restricting a cell keeps the grid well formed and changes no other
    /// cell. The cell's candidates only shrink, its value, once set, stays,
    /// and a value that the restriction sets is one of the candidates the
    /// cell had.
    pub proof fn lemma_restrict_at(self, p: GridPosition, forbidden: Set<u32>)
        requires
            self.wf(),
            self.holds(p),
        ensures
            self.restrict_at(p, forbidden).wf(),
            self.restrict_at(p, forbidden).width() == self.width(),
            self.restrict_at(p, forbidden).height() == self.height(),
            forall|q: GridPosition|
                self.holds(q) && q != p ==> #[trigger] self.restrict_at(p, forbidden).cell(q)
                    == self.cell(q),
            self.restrict_at(p, forbidden).cell(p).candidates.subset_of(self.cell(p).candidates),
            self.restrict_at(p, forbidden).cell(p).rendered == self.cell(p).rendered,
            self.cell(p).value is Some ==> self.restrict_at(p, forbidden) == self,
            self.cell(p).value is None ==> match self.restrict_at(p, forbidden).cell(p).value {
                Some(v) => self.cell(p).candidates.contains(v) && !forbidden.contains(v),
                None => true,
            },
    {
        let c = self.cell(p);
        let rest = c.candidates.difference(forbidden);
        vstd::set_lib::lemma_len_difference(c.candidates, forbidden);
        vstd::set_lib::lemma_len_subset(rest, c.candidates);
        if c.value is Some || rest.len() == 0 {
        } else {
            let cut = CellView { value: None, candidates: rest, rendered: c.rendered };
            let shrunk = self.with_cell(p, cut);
            self.lemma_with_cell(p, cut);
            let noted = if rest.len() < c.candidates.len() {
                shrunk.marked(p)
            } else {
                shrunk
            };
            if rest.len() < c.candidates.len() {
                shrunk.lemma_marked(p);
            }
            assert(noted.cells == shrunk.cells);
            assert(noted.holds(p));
            assert(noted.cell(p) == cut);
            if rest.len() == 1 {
                noted.lemma_collapse_at(p, rest.choose());
                assert(rest.contains(rest.choose()));
                let next = noted.collapse_at(p, rest.choose());
                assert forall|q: GridPosition| self.holds(q) && q != p implies #[trigger] next.cell(
                    q,
                ) == self.cell(q) by {
                    assert(noted.holds(q));
                    assert(noted.cell(q) == shrunk.cell(q));
                }
            } else {
                assert forall|q: GridPosition| self.holds(q) && q != p implies #[trigger] noted.cell(
                    q,
                ) == self.cell(q) by {
                    assert(noted.cell(q) == shrunk.cell(q));
                }
            }
        }
    }
}

/// Replacing one cell of a row changes the row's weight by the difference
/// of the two cells' weights.
pub proof fn lemma_row_weight_update(row: Seq<CellView>, x: int, c: CellView, n: nat)
    requires
        0 <= x < row.len(),
        n <= row.len(),
    ensures
        row_weight(row.update(x, c), n) + (if x < n {
            row[x].weight()
        } else {
            0
        }) == row_weight(row, n) + (if x < n {
            c.weight()
        } else {
            0
        }),
    decreases n,
{
    if n > 0 {
        lemma_row_weight_update(row, x, c, (n - 1) as nat);
    }
}

/// Replacing one row changes the weight of the rows by the difference of
/// the two rows' weights.
pub proof fn lemma_rows_weight_update(cells: Seq<Seq<CellView>>, y: int, row: Seq<CellView>, n: nat)
    requires
        0 <= y < cells.len(),
        n <= cells.len(),
    ensures
        rows_weight(cells.update(y, row), n) + (if y < n {
            row_weight(cells[y], cells[y].len())
        } else {
            0
        }) == rows_weight(cells, n) + (if y < n {
            row_weight(row, row.len())
        } else {
            0
        }),
    decreases n,
{
    if n > 0 {
        lemma_rows_weight_update(cells, y, row, (n - 1) as nat);
    }
}

impl CellView {
    /// `follows` is transitive.
    pub proof fn lemma_follows_trans(self, middle: CellView, earlier: CellView)
        requires
            self.follows(middle),
            middle.follows(earlier),
        ensures
            self.follows(earlier),
    {
    }
}

impl GridView {
    /// Replacing one cell changes the grid's weight by the difference of the
    /// two cells' weights.
    pub proof fn lemma_with_cell_weight(self, p: GridPosition, c: CellView)
        requires
            self.wf(),
            self.holds(p),
        ensures
            self.with_cell(p, c).weight() + self.cell(p).weight() == self.weight() + c.weight(),
    {
        let row = self.cells[p.y as int];
        assert(row.len() == self.width());
        lemma_row_weight_update(row, p.x as int, c, row.len());
        lemma_rows_weight_update(self.cells, p.y as int, row.update(p.x as int, c), self.cells.len());
    }

    /// A restriction never adds weight, and it takes weight away whenever it
    /// changes the worklist.
    pub proof fn lemma_restrict_weight(self, p: GridPosition, forbidden: Set<u32>)
        requires
            self.wf(),
            self.holds(p),
        ensures
            self.restrict_at(p, forbidden).weight() <= self.weight(),
            self.restrict_at(p, forbidden).stack == self.stack || self.restrict_at(
                p,
                forbidden,
            ).weight() < self.weight(),
    {
        let c = self.cell(p);
        let rest = c.candidates.difference(forbidden);
        vstd::set_lib::lemma_len_difference(c.candidates, forbidden);
        if c.value is Some || rest.len() == 0 {
        } else {
            let cut = CellView { value: None, candidates: rest, rendered: c.rendered };
            let shrunk = self.with_cell(p, cut);
            vstd::set_lib::lemma_len_subset(rest, c.candidates);
            self.lemma_with_cell(p, cut);
            self.lemma_with_cell_weight(p, cut);
            let noted = if rest.len() < c.candidates.len() {
                shrunk.marked(p)
            } else {
                shrunk
            };
            if rest.len() < c.candidates.len() {
                shrunk.lemma_marked(p);
            }
            assert(noted.cells == shrunk.cells);
            assert(noted.weight() == shrunk.weight());
            if rest.len() == 1 {
                let done = CellView {
                    value: Some(rest.choose()),
                    candidates: rest,
                    rendered: c.rendered,
                };
                assert(noted.cell(p) == cut);
                noted.lemma_with_cell_weight(p, done);
                assert(noted.collapse_at(p, rest.choose()).cells == noted.with_cell(p, done).cells);
            }
        }
    }

    /// A restriction gives a grid that refines the one before.
    pub proof fn lemma_restrict_refines(self, p: GridPosition, forbidden: Set<u32>)
        requires
            self.wf(),
            self.holds(p),
        ensures
            self.restrict_at(p, forbidden).refines(self),
    {
        let next = self.restrict_at(p, forbidden);
        self.lemma_restrict_at(p, forbidden);
        vstd::set_lib::lemma_len_subset(next.cell(p).candidates, self.cell(p).candidates);
        assert forall|q: GridPosition| #[trigger] self.holds(q) implies next.cell(q).follows(
            self.cell(q),
        ) by {
            if q != p {
                assert(next.cell(q) == self.cell(q));
            }
        }
    }

    /// `refines` is transitive.
    pub proof fn lemma_refines_trans(self, middle: GridView, earlier: GridView)
        requires
            self.refines(middle),
            middle.refines(earlier),
        ensures
            self.refines(earlier),
    {
        assert forall|q: GridPosition| #[trigger] earlier.holds(q) implies self.cell(q).follows(
            earlier.cell(q),
        ) by {
            assert(middle.holds(q));
            self.cell(q).lemma_follows_trans(middle.cell(q), earlier.cell(q));
        }
    }

    /// A grid that refines a grid within `domain` is within `domain`, and
    /// has no cell to collapse that the earlier grid had not.
    pub proof fn lemma_refines_within(self, earlier: GridView, domain: Set<u32>)
        requires
            self.refines(earlier),
            earlier.within(domain),
        ensures
            self.within(domain),
            self.uncollapsed().subset_of(earlier.uncollapsed()),
    {
        assert forall|q: GridPosition| #[trigger] self.holds(q) implies self.cell(q).within(
            domain,
        ) by {
            assert(earlier.holds(q));
        }
        assert forall|q: (u32, u32)| self.uncollapsed().contains(q) implies earlier.uncollapsed().contains(
            q,
        ) by {
            assert(earlier.holds(GridPosition { x: q.0, y: q.1 }));
        }
    }

    /// Taking the last position off the worklist keeps the grid well formed.
    pub proof fn lemma_popped(self)
        requires
            self.wf(),
            self.stack.len() > 0,
        ensures
            self.popped().wf(),
            self.holds(self.stack.last()),
            self.popped().refines(self),
            self.popped().weight() == self.weight(),
    {
        let next = self.popped();
        assert forall|q: GridPosition| #[trigger] next.holds(q) implies next.cell(q).sound() by {
            assert(self.holds(q));
        }
        assert forall|i: int| 0 <= i < next.stack.len() implies next.holds(#[trigger] next.stack[i]) by {
            assert(self.holds(self.stack[i]));
        }
        assert(self.holds(self.stack[self.stack.len() - 1]));
        assert forall|q: GridPosition| #[trigger] self.holds(q) implies next.cell(q).follows(
            self.cell(q),
        ) by {}
    }
}

impl Progress {
    /// One more restriction keeps the grid well formed, refines it, never
    /// adds weight, and takes weight away whenever it changes the worklist.
    pub proof fn lemma_then_restrict(self, exists: bool, q: GridPosition, forbidden: Set<u32>)
        requires
            self.grid.wf(),
            exists ==> self.grid.holds(q),
        ensures
            self.then_restrict(exists, q, forbidden).grid.wf(),
            self.then_restrict(exists, q, forbidden).grid.refines(self.grid),
            self.then_restrict(exists, q, forbidden).grid.weight() <= self.grid.weight(),
            self.then_restrict(exists, q, forbidden).grid.stack == self.grid.stack
                || self.then_restrict(exists, q, forbidden).grid.weight() < self.grid.weight(),
            self.failed is Some ==> self.then_restrict(exists, q, forbidden) == self,
    {
        assert forall|r: GridPosition| #[trigger] self.grid.holds(r) implies self.grid.cell(r).follows(
            self.grid.cell(r),
        ) by {}
        if self.failed is Some || !exists {
        } else if self.grid.restrict_fails(q, forbidden) {
        } else {
            self.grid.lemma_restrict_at(q, forbidden);
            self.grid.lemma_restrict_refines(q, forbidden);
            self.grid.lemma_restrict_weight(q, forbidden);
        }
    }
}

impl GridView {
    /// One step of the propagation keeps the grid well formed, refines it,
    /// never adds weight, and takes weight away whenever it changes the
    /// worklist.
    pub proof fn lemma_relax_at(self, p: GridPosition, catalog: Map<u32, OptionsView>)
        requires
            self.wf(),
            self.holds(p),
        ensures
            self.relax_at(p, catalog).grid.wf(),
            self.relax_at(p, catalog).grid.refines(self),
            self.relax_at(p, catalog).grid.weight() <= self.weight(),
            self.relax_at(p, catalog).grid.stack == self.stack || self.relax_at(
                p,
                catalog,
            ).grid.weight() < self.weight(),
    {
        let f = forbidden_of(self.cell(p), catalog);
        let s0 = Progress { grid: self, failed: None };
        let s1 = s0.then_restrict(p.y + 1 < self.height(), at(p.x as int, p.y + 1), f.top);
        s0.lemma_then_restrict(p.y + 1 < self.height(), at(p.x as int, p.y + 1), f.top);
        let s2 = s1.then_restrict(p.x + 1 < self.width(), at(p.x + 1, p.y as int), f.right);
        s1.lemma_then_restrict(p.x + 1 < self.width(), at(p.x + 1, p.y as int), f.right);
        let s3 = s2.then_restrict(p.y > 0, at(p.x as int, p.y - 1), f.bottom);
        s2.lemma_then_restrict(p.y > 0, at(p.x as int, p.y - 1), f.bottom);
        let s4 = s3.then_restrict(p.x > 0, at(p.x - 1, p.y as int), f.left);
        s3.lemma_then_restrict(p.x > 0, at(p.x - 1, p.y as int), f.left);
        s2.grid.lemma_refines_trans(s1.grid, self);
        s3.grid.lemma_refines_trans(s2.grid, self);
        s4.grid.lemma_refines_trans(s3.grid, self);
    }

    /// However far the propagation has come, the grid is well formed and
    /// refines the grid it started from.
    pub proof fn lemma_drain(self, catalog: Map<u32, OptionsView>, n: nat)
        requires
            self.wf(),
        ensures
            self.drain(catalog, n).grid.wf(),
            self.drain(catalog, n).grid.refines(self),
        decreases n,
    {
        assert forall|r: GridPosition| #[trigger] self.holds(r) implies self.cell(r).follows(
            self.cell(r),
        ) by {}
        if n == 0 || self.stack.len() == 0 {
        } else {
            self.lemma_popped();
            let step = self.popped().relax_at(self.stack.last(), catalog);
            self.popped().lemma_relax_at(self.stack.last(), catalog);
            step.grid.lemma_refines_trans(self.popped(), self);
            if step.failed is None {
                step.grid.lemma_drain(catalog, (n - 1) as nat);
                step.grid.drain(catalog, (n - 1) as nat).grid.lemma_refines_trans(step.grid, self);
            }
        }
    }

    /// Where the propagation has not stopped after `n` positions, one more
    /// position is one more step from where it stands.
    pub proof fn lemma_drain_next(self, catalog: Map<u32, OptionsView>, n: nat)
        requires
            self.drain(catalog, n).failed is None,
            self.drain(catalog, n).grid.stack.len() > 0,
        ensures
            self.drain(catalog, n + 1) == {
                let reached = self.drain(catalog, n).grid;
                let step = reached.popped().relax_at(reached.stack.last(), catalog);
                if step.failed is Some {
                    step
                } else {
                    Progress { grid: step.grid, failed: None }
                }
            },
        decreases n,
    {
        if n == 0 {
            let step = self.popped().relax_at(self.stack.last(), catalog);
            assert(self.drain(catalog, 1) == if step.failed is Some {
                step
            } else {
                step.grid.drain(catalog, 0)
            });
        } else {
            let step = self.popped().relax_at(self.stack.last(), catalog);
            assert(self.stack.len() > 0);
            assert(step.failed is None);
            step.grid.lemma_drain_next(catalog, (n - 1) as nat);
        }
    }
}

impl GridView {
    /// Marking the collapsed cells as rendered keeps the grid well formed,
    /// changes no value and no candidate, and leaves the same cells to
    /// collapse.
    pub proof fn lemma_all_rendered(self)
        requires
            self.wf(),
        ensures
            self.all_rendered().wf(),
            self.all_rendered().width() == self.width(),
            self.all_rendered().height() == self.height(),
            self.all_rendered().uncollapsed() == self.uncollapsed(),
            forall|p: GridPosition| #[trigger]
                self.holds(p) ==> self.all_rendered().cell(p).value == self.cell(p).value
                    && self.all_rendered().cell(p).candidates == self.cell(p).candidates,
    {
        let next = self.all_rendered();
        assert(self.cells[0].len() == self.width());
        assert forall|y: int| 0 <= y < next.height() implies (#[trigger] next.cells[y]).len()
            == next.width() by {
            assert(self.cells[y].len() == self.width());
        }
        assert forall|q: GridPosition| #[trigger] next.holds(q) implies next.cell(q).sound()
            && next.cell(q).value == self.cell(q).value && next.cell(q).candidates == self.cell(
            q,
        ).candidates by {
            assert(self.holds(q));
            assert(self.cells[q.y as int].len() == self.width());
        }
        assert forall|i: int| 0 <= i < next.stack.len() implies next.holds(#[trigger] next.stack[i]) by {
            assert(self.holds(self.stack[i]));
        }
        assert forall|q: (u32, u32)| next.uncollapsed().contains(q) <==> self.uncollapsed().contains(
            q,
        ) by {
            let qp = GridPosition { x: q.0, y: q.1 };
            if self.holds(qp) {
                assert(next.holds(qp));
            }
        }
        assert(next.uncollapsed() =~= self.uncollapsed());
    }
}

impl Progress {
    /// The propagation goes no further from here: a restriction failed, or
    /// the worklist is empty.
    pub open spec fn stopped(self) -> bool {
        self.failed is Some || self.grid.stack.len() == 0
    }
}

impl GridView {
    /// Once the propagation has stopped, more positions change nothing.
    pub proof fn lemma_drain_stable(self, catalog: Map<u32, OptionsView>, n: nat, m: nat)
        requires
            n <= m,
            self.drain(catalog, n).stopped(),
        ensures
            self.drain(catalog, m) == self.drain(catalog, n),
        decreases n,
    {
        if n == 0 || self.stack.len() == 0 {
        } else {
            let step = self.popped().relax_at(self.stack.last(), catalog);
            if step.failed is None {
                step.grid.lemma_drain_stable(catalog, (n - 1) as nat, (m - 1) as nat);
            }
        }
    }
}

} // verus!
