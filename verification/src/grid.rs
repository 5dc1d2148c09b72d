//! The grid of cells, the worklist, and the operations that change them.

use crate::catalog::{BesideImpossible, ConfigMap, ModelConfigOptions, WaveError};
use crate::model::{
    forbidden_of, push_unique, shared_forbidden, CellView, GridView, OptionsView,
};
use crate::tiles::{lemma_take_next_to_set, PositionSet, TileSet};
use vstd::prelude::*;

verus! {

/// A cell's place in the grid: column `x`, row `y`.
#[derive(Debug, PartialEq, Eq, Structural, Hash, Clone, Copy)]
pub struct GridPosition {
    pub x: u32,
    pub y: u32,
}

impl GridPosition {
    pub fn new(x: u32, y: u32) -> (p: Self)
        ensures
            p == (GridPosition { x, y }),
    {
        Self { x, y }
    }
}

/// One cell of the grid.
#[derive(Debug)]
pub struct GridItem {
    pub value: Option<u32>,
    pub possible_value: TileSet,
    pub position: GridPosition,
    pub rendered: bool,
}

/// What one more candidate `k` does to the codes that all candidates forbid:
/// each direction is intersected with what `k` forbids there.
pub proof fn lemma_shared_forbidden_insert(
    candidates: Set<u32>,
    k: u32,
    catalog: Map<u32, OptionsView>,
)
    ensures
        shared_forbidden(candidates.insert(k), catalog).top == shared_forbidden(
            candidates,
            catalog,
        ).top.intersect(catalog[k].constraint.top),
        shared_forbidden(candidates.insert(k), catalog).right == shared_forbidden(
            candidates,
            catalog,
        ).right.intersect(catalog[k].constraint.right),
        shared_forbidden(candidates.insert(k), catalog).bottom == shared_forbidden(
            candidates,
            catalog,
        ).bottom.intersect(catalog[k].constraint.bottom),
        shared_forbidden(candidates.insert(k), catalog).left == shared_forbidden(
            candidates,
            catalog,
        ).left.intersect(catalog[k].constraint.left),
{
    let more = candidates.insert(k);
    assert(more.contains(k));
    assert forall|j: u32| candidates.contains(j) implies more.contains(j) by {}
    assert(shared_forbidden(more, catalog).top =~= shared_forbidden(candidates, catalog).top.intersect(
        catalog[k].constraint.top,
    ));
    assert(shared_forbidden(more, catalog).right =~= shared_forbidden(
        candidates,
        catalog,
    ).right.intersect(catalog[k].constraint.right));
    assert(shared_forbidden(more, catalog).bottom =~= shared_forbidden(
        candidates,
        catalog,
    ).bottom.intersect(catalog[k].constraint.bottom));
    assert(shared_forbidden(more, catalog).left =~= shared_forbidden(
        candidates,
        catalog,
    ).left.intersect(catalog[k].constraint.left));
}

impl View for GridItem {
    type V = CellView;

    open spec fn view(&self) -> CellView {
        CellView { value: self.value, candidates: self.possible_value@, rendered: self.rendered }
    }
}

impl GridItem {
    /// A cell that is not collapsed, with the given candidates.
    pub fn new(position: GridPosition, possible_value: TileSet) -> (item: Self)
        ensures
            item.value is None,
            item.possible_value == possible_value,
            item.position == position,
            !item.rendered,
    {
        Self { value: None, possible_value, position, rendered: false }
    }

    /// The cell's value, once it is collapsed.
    pub fn get_value(&self) -> (value: Option<u32>)
        ensures
            value == self.value,
    {
        self.value
    }

    /// The cell's position and the asset of its value.
    pub fn get_model_bundle(&self, config: &ConfigMap) -> (bundle: (&GridPosition, String))
        requires
            self.value is Some,
            config@.contains_key(self.value->0),
        ensures
            *bundle.0 == self.position,
            bundle.1@ == config@[self.value->0].asset,
    {
        (&self.position, self.get_config(config).asset_model.clone())
    }

    /// The catalog's entry for the cell's value.
    pub fn get_config<'a>(&self, config: &'a ConfigMap) -> (options: &'a ModelConfigOptions)
        requires
            self.value is Some,
            config@.contains_key(self.value->0),
        ensures
            options@ == config@[self.value->0],
    {
        config.get(self.value.unwrap()).unwrap()
    }

    /// What the cell forbids around it. A collapsed cell gives the stored
    /// constraint of its value as it is; a cell that is not collapsed gives,
    /// for each direction, the codes that every one of its candidates
    /// forbids there.
    pub fn get_beside_impossible_value(&self, config: &ConfigMap) -> (forbidden: BesideImpossible)
        requires
            self@.sound(),
            self@.within(config@.dom()),
        ensures
            forbidden@ == forbidden_of(self@, config@),
    {
        if let Some(_) = self.value {
            self.get_config(config).beside_impossible.clone()
        } else {
            let codes = self.possible_value.to_vec();
            proof {
                assert forall|j: int| 0 <= j < codes@.len() implies config@.contains_key(
                    #[trigger] codes@[j],
                ) by {
                    assert(codes@.to_set().contains(codes@[j]));
                }
                assert(codes@.take(0).to_set() =~= Set::<u32>::empty());
                lemma_take_next_to_set(codes@, 0);
                lemma_shared_forbidden_insert(Set::<u32>::empty(), codes@[0], config@);
            }
            let mut shared = config.get(codes[0]).unwrap().beside_impossible.clone();
            proof {
                let none = shared_forbidden(Set::<u32>::empty(), config@);
                let one = config@[codes@[0]].constraint;
                assert(none.top.intersect(one.top) =~= one.top);
                assert(none.right.intersect(one.right) =~= one.right);
                assert(none.bottom.intersect(one.bottom) =~= one.bottom);
                assert(none.left.intersect(one.left) =~= one.left);
            }
            let mut i: usize = 1;
            while i < codes.len()
                invariant
                    1 <= i <= codes.len(),
                    forall|j: int| 0 <= j < codes@.len() ==> config@.contains_key(#[trigger] codes@[j]),
                    shared@ == shared_forbidden(codes@.take(i as int).to_set(), config@),
                decreases codes.len() - i,
            {
                let next = &config.get(codes[i]).unwrap().beside_impossible;
                proof {
                    lemma_take_next_to_set(codes@, i as int);
                    lemma_shared_forbidden_insert(
                        codes@.take(i as int).to_set(),
                        codes@[i as int],
                        config@,
                    );
                }
                shared =
                BesideImpossible {
                    top: shared.top.intersection(&next.top),
                    right: shared.right.intersection(&next.right),
                    bottom: shared.bottom.intersection(&next.bottom),
                    left: shared.left.intersection(&next.left),
                };
                i += 1;
            }
            proof {
                assert(codes@.take(codes@.len() as int) == codes@);
            }
            shared
        }
    }
}

/// The worklist of the propagation: cells that wait to be looked at again.
/// No cell is in it twice, and the cell pushed last leaves first.
#[derive(Debug)]
pub struct WaveStack(pub Vec<GridPosition>);

impl View for WaveStack {
    type V = Seq<GridPosition>;

    open spec fn view(&self) -> Seq<GridPosition> {
        self.0@
    }
}

impl WaveStack {
    /// The empty worklist.
    pub fn new() -> (stack: Self)
        ensures
            stack@ == Seq::<GridPosition>::empty(),
    {
        Self(Vec::new())
    }

    /// Pushes `position`, unless the worklist holds it already.
    pub fn push(&mut self, position: GridPosition)
        ensures
            final(self)@ == push_unique(old(self)@, position),
    {
        let mut i: usize = 0;
        while i < self.0.len()
            invariant
                i <= self.0.len(),
                self.0@ == old(self).0@,
                forall|j: int| 0 <= j < i ==> self.0@[j] != position,
            decreases self.0.len() - i,
        {
            if self.0[i] == position {
                return ;
            }
            i += 1;
        }
        self.0.push(position);
    }

    /// Takes the position pushed last off the worklist.
    pub fn pop(&mut self) -> (position: Option<GridPosition>)
        ensures
            old(self)@.len() == 0 ==> position is None && final(self)@ == old(self)@,
            old(self)@.len() > 0 ==> position == Some(old(self)@.last()) && final(self)@ == old(
                self,
            )@.drop_last(),
    {
        self.0.pop()
    }
}

/// The cells of the grid, row by row.
#[derive(Debug)]
pub struct GridVec(pub Vec<Vec<GridItem>>);

impl View for GridVec {
    type V = Seq<Seq<CellView>>;

    open spec fn view(&self) -> Seq<Seq<CellView>> {
        Seq::new(
            self.0@.len(),
            |y: int| Seq::new(self.0@[y]@.len(), |x: int| self.0@[y]@[x]@),
        )
    }
}

impl GridVec {
    /// Whether the cell `(x, y)` exists.
    pub open spec fn has(&self, x: u32, y: u32) -> bool {
        y < self.0@.len() && x < self.0@[y as int]@.len()
    }

    /// The rows, to be changed in place.
    pub fn get_mut_value(&mut self) -> (rows: &mut Vec<Vec<GridItem>>)
        ensures
            *rows == old(self).0,
            final(self).0 == *final(rows),
    {
        &mut self.0
    }

    /// The cell in column `x` of row `y`.
    pub fn get_item(&self, x: u32, y: u32) -> (item: &GridItem)
        requires
            self.has(x, y),
        ensures
            *item == self.0@[y as int]@[x as int],
    {
        &self.0[y as usize][x as usize]
    }

    /// The cell in column `x` of row `y`, to be changed in place. No other
    /// cell changes.
    pub fn get_mut_item(&mut self, x: u32, y: u32) -> (item: &mut GridItem)
        requires
            old(self).has(x, y),
        ensures
            *item == old(self).0@[y as int]@[x as int],
            final(self).0@.len() == old(self).0@.len(),
            forall|r: int|
                0 <= r < old(self).0@.len() && r != y ==> final(self).0@[r] == old(self).0@[r],
            final(self).0@[y as int]@ == old(self).0@[y as int]@.update(x as int, *final(item)),
    {
        &mut self.0[y as usize][x as usize]
    }
}

/// The grid with its worklist and the set of the cells that are not
/// collapsed yet.
#[derive(Debug)]
pub struct WaveGrid {
    pub grid_value: GridVec,
    pub stack: WaveStack,
    pub not_collapsed_set: PositionSet,
}

impl View for WaveGrid {
    type V = GridView;

    open spec fn view(&self) -> GridView {
        GridView { cells: self.grid_value@, stack: self.stack@ }
    }
}

impl WaveGrid {
    /// The grid is well formed when its model is, every cell knows its own
    /// position, and the set of cells that are not collapsed holds exactly
    /// the cells without a value.
    pub open spec fn wf(&self) -> bool {
        &&& self@.wf()
        &&& forall|p: GridPosition| #[trigger]
            self@.holds(p) ==> self.grid_value.0@[p.y as int]@[p.x as int].position == p
        &&& self.not_collapsed_set@ == self@.uncollapsed()
        &&& self.not_collapsed_set@.finite()
    }

    /// A grid of `width` by `height` cells, none collapsed, each with all of
    /// `all_possible_value` as candidates, and an empty worklist.
    pub fn new(width: usize, height: usize, all_possible_value: TileSet) -> (grid: Self)
        requires
            0 < width <= u32::MAX,
            0 < height <= u32::MAX,
            exists|code: u32| all_possible_value@.contains(code),
        ensures
            grid.wf(),
            grid@ == GridView::fresh(width as nat, height as nat, all_possible_value@),
            grid@.width() == width,
            grid@.height() == height,
            grid@.within(all_possible_value@),
    {
        let domain_size = all_possible_value.len();
        assert(domain_size > 0);
        let mut vector: Vec<Vec<GridItem>> = Vec::new();
        let mut not_collapsed_set = PositionSet::new();
        let mut row_index: usize = 0;
        while row_index < height
            invariant
                0 < width <= u32::MAX,
                0 < height <= u32::MAX,
                row_index <= height,
                vector@.len() == row_index,
                forall|y: int| 0 <= y < row_index ==> (#[trigger] vector@[y])@.len() == width,
                forall|y: int, x: int|
                    0 <= y < row_index && 0 <= x < width ==> {
                        let item = #[trigger] vector@[y]@[x];
                        &&& item.value is None
                        &&& item.possible_value@ == all_possible_value@
                        &&& !item.rendered
                        &&& item.position == (GridPosition { x: x as u32, y: y as u32 })
                    },
                not_collapsed_set@.finite(),
                forall|q: (u32, u32)|
                    not_collapsed_set@.contains(q) <==> q.0 < width && q.1 < row_index,
            decreases height - row_index,
        {
            let mut row_vec: Vec<GridItem> = Vec::new();
            let mut col_index: usize = 0;
            while col_index < width
                invariant
                    0 < width <= u32::MAX,
                    row_index < height <= u32::MAX,
                    col_index <= width,
                    row_vec@.len() == col_index,
                    forall|x: int|
                        0 <= x < col_index ==> {
                            let item = #[trigger] row_vec@[x];
                            &&& item.value is None
                            &&& item.possible_value@ == all_possible_value@
                            &&& !item.rendered
                            &&& item.position == (GridPosition { x: x as u32, y: row_index as u32 })
                        },
                    not_collapsed_set@.finite(),
                    forall|q: (u32, u32)|
                        not_collapsed_set@.contains(q) <==> (q.0 < width && q.1 < row_index) || (q.1
                            == row_index && q.0 < col_index),
                decreases width - col_index,
            {
                let x = col_index as u32;
                let y = row_index as u32;
                row_vec.push(GridItem::new(GridPosition::new(x, y), all_possible_value.clone()));
                not_collapsed_set.insert((x, y));
                col_index += 1;
            }
            vector.push(row_vec);
            row_index += 1;
        }
        let grid = Self { grid_value: GridVec(vector), stack: WaveStack::new(), not_collapsed_set };
        proof {
            assert(grid@.height() == height);
            assert(grid@.cells[0].len() == width);
            assert forall|p: GridPosition| #[trigger] grid@.holds(p) implies grid@.cell(p) == (CellView {
                value: None,
                candidates: all_possible_value@,
                rendered: false,
            }) && grid.grid_value.0@[p.y as int]@[p.x as int].position == p by {
                let item = grid.grid_value.0@[p.y as int]@[p.x as int];
                assert(item.value is None);
            }
            assert(grid.not_collapsed_set@ =~= grid@.uncollapsed());
            let fresh = GridView::fresh(width as nat, height as nat, all_possible_value@);
            assert forall|y: int| 0 <= y < height implies #[trigger] grid@.cells[y] =~= fresh.cells[y] by {
                assert forall|x: int| 0 <= x < width implies grid@.cells[y][x] == fresh.cells[y][x] by {
                    assert(grid@.holds(GridPosition { x: x as u32, y: y as u32 }));
                }
            }
            assert(grid@.cells =~= fresh.cells);
        }
        grid
    }

    /// Restricts the cell at `position` by `beside_impossible`, the codes
    /// that a neighbour forbids there.
    ///
    /// A collapsed cell stays as it is. Where no candidate would be left,
    /// nothing changes and the contradiction is reported. Otherwise the
    /// forbidden codes leave the candidates; if any left, the position is
    /// pushed on the worklist; and if one candidate remains, the cell
    /// collapses to it.
    pub fn update_grid(&mut self, position: GridPosition, beside_impossible: &TileSet) -> (done:
        Result<(), WaveError>)
        requires
            old(self).wf(),
            old(self)@.holds(position),
        ensures
            final(self).wf(),
            old(self)@.restrict_fails(position, beside_impossible@) ==> done == Err::<(), WaveError>(
                WaveError::Contradiction { x: position.x, y: position.y },
            ) && *final(self) == *old(self),
            !old(self)@.restrict_fails(position, beside_impossible@) ==> done is Ok && final(self)@
                == old(self)@.restrict_at(position, beside_impossible@),
            final(self)@.refines(old(self)@),
    {
        proof {
            old(self)@.lemma_restrict_refines(position, beside_impossible@);
        }
        let grid_item = self.grid_value.get_item(position.x, position.y);
        if grid_item.get_value().is_some() {
            return Ok(());
        }
        let old_len = grid_item.possible_value.len();
        let mut rest = grid_item.possible_value.clone();
        rest.remove_all(beside_impossible);
        let new_len = rest.len();
        if new_len == 0 {
            return Err(WaveError::Contradiction { x: position.x, y: position.y });
        }
        let sole = if new_len == 1 {
            rest.first()
        } else {
            None
        };
        let grid_item = self.grid_value.get_mut_item(position.x, position.y);
        grid_item.possible_value = rest;
        proof {
            let cut = CellView {
                value: None,
                candidates: rest@,
                rendered: old(self)@.cell(position).rendered,
            };
            let shrunk = old(self)@.with_cell(position, cut);
            old(self)@.lemma_with_cell(position, cut);
            assert(old(self)@.cells[position.y as int].len() == old(self)@.width());
            assert(self@.cells =~~= shrunk.cells);
            assert(self@ == shrunk);
            assert forall|p: GridPosition| #[trigger] self@.holds(p) implies self.grid_value.0@[p.y as int]@[p.x as int].position
                == p by {
                assert(old(self)@.holds(p));
            }
            assert forall|q: (u32, u32)|
                self@.uncollapsed().contains(q) <==> old(self)@.uncollapsed().contains(q) by {
                let qp = GridPosition { x: q.0, y: q.1 };
                if old(self)@.holds(qp) && qp != position {
                    assert(shrunk.cell(qp) == old(self)@.cell(qp));
                }
            }
            assert(self.not_collapsed_set@ =~= self@.uncollapsed());
            vstd::set_lib::lemma_len_difference(
                old(self)@.cell(position).candidates,
                beside_impossible@,
            );
        }
        assert(self.wf());
        if old_len != new_len {
            let ghost before = self@;
            self.stack.push(position);
            proof {
                before.lemma_marked(position);
                assert(self@ == before.marked(position));
                assert forall|p: GridPosition| #[trigger] self@.holds(p) implies self.grid_value.0@[p.y as int]@[p.x as int].position
                    == p by {
                    assert(before.holds(p));
                }
                assert(self@.uncollapsed() =~= before.uncollapsed());
            }
        }
        assert(self.wf());
        if let Some(value) = sole {
            proof {
                Set::lemma_is_singleton(rest@);
                assert(rest@.contains(rest@.choose()));
            }
            self.update_grid_item_value(position, value);
        }
        Ok(())
    }

    /// Collapses the cell at `position` to `value`: the value is set, the
    /// cell leaves the set of cells that are not collapsed, and the position
    /// is pushed on the worklist. The cell's candidates are not looked at.
    pub fn update_grid_item_value(&mut self, position: GridPosition, value: u32)
        requires
            old(self).wf(),
            old(self)@.holds(position),
        ensures
            final(self).wf(),
            final(self)@ == old(self)@.collapse_at(position, value),
            final(self).not_collapsed_set@ == old(self).not_collapsed_set@.remove(
                (position.x, position.y),
            ),
    {
        self.not_collapsed_set.remove((position.x, position.y));
        self.grid_value.get_mut_item(position.x, position.y).value = Some(value);
        self.stack.push(position);
        proof {
            old(self)@.lemma_collapse_at(position, value);
            assert(old(self)@.cells[position.y as int].len() == old(self)@.width());
            assert(self@.cells =~~= old(self)@.collapse_at(position, value).cells);
            assert(self@ == old(self)@.collapse_at(position, value));
            assert forall|p: GridPosition| #[trigger] self@.holds(p) implies self.grid_value.0@[p.y as int]@[p.x as int].position
                == p by {
                assert(old(self)@.holds(p));
            }
        }
    }

    /// A cell that is not collapsed, picked at random, or `None` when every
    /// cell is collapsed.
    pub fn get_rand_not_collapse(&self) -> (picked: Option<GridPosition>)
        requires
            self.wf(),
        ensures
            picked is Some ==> self@.holds(picked->0) && self@.cell(picked->0).value is None,
            picked is None ==> self@.uncollapsed() == Set::<(u32, u32)>::empty(),
    {
        match self.not_collapsed_set.choose_random() {
            Some(cell) => Some(GridPosition::new(cell.0, cell.1)),
            None => None,
        }
    }
}

} // verus!
