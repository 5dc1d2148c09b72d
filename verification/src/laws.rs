//! What holds of the engine whatever the catalog and the grid: the laws
//! that relate its operations, proved over the model.

use crate::catalog::WaveError;
use crate::engine::settled;
use crate::grid::GridPosition;
use crate::model::{forbidden_of, row_pending, rows_pending, CellView, GridView, OptionsView};
use vstd::prelude::*;

verus! {

/// A restriction never adds a candidate to any cell, and leaves a collapsed
/// cell exactly as it was.
pub proof fn law_restriction_only_shrinks(
    grid: GridView,
    p: GridPosition,
    forbidden: Set<u32>,
    q: GridPosition,
)
    requires
        grid.wf(),
        grid.holds(p),
        grid.holds(q),
    ensures
        grid.restrict_at(p, forbidden).cell(q).candidates.subset_of(grid.cell(q).candidates),
        grid.restrict_at(p, forbidden).cell(q).candidates.len() <= grid.cell(q).candidates.len(),
        grid.cell(q).value is Some ==> grid.restrict_at(p, forbidden).cell(q) == grid.cell(q),
{
    grid.lemma_restrict_refines(p, forbidden);
}

/// A collapse changes no candidate set: what a cell could take is frozen
/// as it stood.
pub proof fn law_collapse_freezes_candidates(
    grid: GridView,
    p: GridPosition,
    value: u32,
    q: GridPosition,
)
    requires
        grid.wf(),
        grid.holds(p),
        grid.holds(q),
    ensures
        grid.collapse_at(p, value).cell(q).candidates == grid.cell(q).candidates,
{
    grid.lemma_collapse_at(p, value);
}

/// Throughout a propagation the number of candidates of a cell never
/// grows, and a cell that is collapsed keeps its value and its candidates.
pub proof fn law_propagation_only_shrinks(
    grid: GridView,
    catalog: Map<u32, OptionsView>,
    n: nat,
    q: GridPosition,
)
    requires
        grid.wf(),
        grid.holds(q),
    ensures
        grid.drain(catalog, n).grid.cell(q).candidates.subset_of(grid.cell(q).candidates),
        grid.drain(catalog, n).grid.cell(q).candidates.len() <= grid.cell(q).candidates.len(),
        grid.cell(q).value is Some ==> grid.drain(catalog, n).grid.cell(q) == grid.cell(q),
{
    grid.lemma_drain(catalog, n);
}

/// In a grid within `domain` the value of every collapsed cell is a code
/// of `domain`.
pub proof fn law_collapsed_value_in_domain(grid: GridView, domain: Set<u32>, q: GridPosition)
    requires
        grid.within(domain),
        grid.holds(q),
        grid.cell(q).value is Some,
    ensures
        domain.contains(grid.cell(q).value->0),
{
}

/// A fresh grid over candidates of `domain` is well formed and within
/// `domain`.
pub proof fn law_fresh_within(width: nat, height: nat, candidates: Set<u32>, domain: Set<u32>)
    requires
        0 < width <= u32::MAX,
        0 < height <= u32::MAX,
        candidates.finite(),
        candidates.len() > 0,
        candidates.subset_of(domain),
    ensures
        GridView::fresh(width, height, candidates).wf(),
        GridView::fresh(width, height, candidates).within(domain),
{
}

/// Collapsing a cell to a code of `domain` keeps the grid within `domain`.
pub proof fn law_collapse_within(grid: GridView, p: GridPosition, value: u32, domain: Set<u32>)
    requires
        grid.wf(),
        grid.holds(p),
        grid.within(domain),
        domain.contains(value),
    ensures
        grid.collapse_at(p, value).within(domain),
{
    grid.lemma_collapse_at(p, value);
    let next = grid.collapse_at(p, value);
    assert forall|q: GridPosition| #[trigger] next.holds(q) implies next.cell(q).within(domain) by {
        assert(grid.holds(q));
        if q != p {
            assert(next.cell(q) == grid.cell(q));
        }
    }
}

/// However far a propagation has come from a grid within `domain`, the grid
/// is within `domain`: every value that a restriction sets is a code of
/// `domain`.
pub proof fn law_propagation_within(
    grid: GridView,
    catalog: Map<u32, OptionsView>,
    n: nat,
    domain: Set<u32>,
)
    requires
        grid.wf(),
        grid.within(domain),
    ensures
        grid.drain(catalog, n).grid.within(domain),
{
    grid.lemma_drain(catalog, n);
    grid.drain(catalog, n).grid.lemma_refines_within(grid, domain);
}

/// None of the first `n` cells of a row is handed out where each of them is
/// rendered or not collapsed.
pub proof fn lemma_row_nothing_pending(
    row: Seq<CellView>,
    y: int,
    n: nat,
    catalog: Map<u32, OptionsView>,
)
    requires
        n <= row.len(),
        forall|x: int| 0 <= x < n ==> (#[trigger] row[x]).rendered || row[x].value is None,
    ensures
        row_pending(row, y, n, catalog) == Seq::<(GridPosition, Seq<char>)>::empty(),
    decreases n,
{
    if n > 0 {
        lemma_row_nothing_pending(row, y, (n - 1) as nat, catalog);
    }
}

/// Once the collapsed cells have been handed out, handing out again gives
/// nothing.
pub proof fn law_second_render_is_empty(grid: GridView, catalog: Map<u32, OptionsView>)
    ensures
        grid.all_rendered().renderable(catalog) == Seq::<(GridPosition, Seq<char>)>::empty(),
{
    lemma_rows_nothing_pending(grid, catalog, grid.cells.len());
}

/// The first `n` rows hand out nothing once the collapsed cells have been
/// handed out.
pub proof fn lemma_rows_nothing_pending(grid: GridView, catalog: Map<u32, OptionsView>, n: nat)
    requires
        n <= grid.cells.len(),
    ensures
        rows_pending(grid.all_rendered().cells, n, catalog) == Seq::<
            (GridPosition, Seq<char>),
        >::empty(),
    decreases n,
{
    if n > 0 {
        lemma_rows_nothing_pending(grid, catalog, (n - 1) as nat);
        let row = grid.all_rendered().cells[n - 1];
        lemma_row_nothing_pending(row, n - 1, row.len(), catalog);
    }
}

/// What a collapsed cell forbids is the stored constraint of its value,
/// and no propagation changes that.
pub proof fn law_collapsed_constraint_is_stored(
    grid: GridView,
    catalog: Map<u32, OptionsView>,
    n: nat,
    q: GridPosition,
)
    requires
        grid.wf(),
        grid.holds(q),
        grid.cell(q).value is Some,
    ensures
        forbidden_of(grid.cell(q), catalog) == catalog[grid.cell(q).value->0].constraint,
        forbidden_of(grid.drain(catalog, n).grid.cell(q), catalog)
            == catalog[grid.cell(q).value->0].constraint,
{
    grid.lemma_drain(catalog, n);
}

/// A collapse of a cell that was not collapsed leaves one cell less to
/// collapse, and a propagation leaves no more than there were: the steps of
/// the engine cannot go on for ever.
pub proof fn law_steps_run_out(
    grid: GridView,
    catalog: Map<u32, OptionsView>,
    n: nat,
    p: GridPosition,
    value: u32,
)
    requires
        grid.wf(),
        grid.uncollapsed().finite(),
        grid.drain(catalog, n).grid.holds(p),
        grid.drain(catalog, n).grid.cell(p).value is None,
    ensures
        grid.drain(catalog, n).grid.collapse_at(p, value).uncollapsed().len()
            < grid.uncollapsed().len(),
{
    let mid = grid.drain(catalog, n).grid;
    grid.lemma_drain(catalog, n);
    mid.lemma_refines_within(grid, Set::<u32>::full());
    vstd::set_lib::lemma_len_subset(mid.uncollapsed(), grid.uncollapsed());
    mid.lemma_collapse_at(p, value);
    assert(mid.uncollapsed().contains((p.x, p.y)));
}

/// A propagation has one outcome: wherever it is found settled, it has
/// come to the same grid with the same result, whatever the number of
/// positions counted.
pub proof fn law_propagation_is_determined(
    start: GridView,
    catalog: Map<u32, OptionsView>,
    n: nat,
    end: GridView,
    done: Result<(), WaveError>,
    m: nat,
    other_end: GridView,
    other_done: Result<(), WaveError>,
)
    requires
        settled(start, catalog, n, end, done),
        settled(start, catalog, m, other_end, other_done),
    ensures
        end == other_end,
        done == other_done,
{
    if n <= m {
        start.lemma_drain_stable(catalog, n, m);
    } else {
        start.lemma_drain_stable(catalog, m, n);
    }
    match (done, other_done) {
        (Ok(a), Ok(b)) => {
            assert(a == b);
        },
        (Err(a), Err(b)) => {
            assert(a == b);
        },
        _ => {},
    }
}

} // verus!
