//! The collapse engine: the propagation that empties the worklist, the step
//! that follows it with one random collapse, and the hand-over of collapsed
//! cells for rendering.

use crate::catalog::{ConfigMap, WaveConfig, WaveError};
use crate::grid::{GridItem, GridPosition, WaveGrid};
use crate::model::{at, forbidden_of, row_pending, rows_pending, GridView, OptionsView, Progress};
use rand::Rng;
use vstd::prelude::*;

verus! {

/// The propagation from `start` has come to `end` after `n` positions and
/// stopped there: with `Ok` because the worklist is empty, with the
/// contradiction because a restriction failed at that cell.
pub open spec fn settled(
    start: GridView,
    catalog: Map<u32, OptionsView>,
    n: nat,
    end: GridView,
    done: Result<(), WaveError>,
) -> bool {
    let reached = start.drain(catalog, n);
    &&& reached.grid == end
    &&& match done {
        Ok(_) => reached.failed is None && end.stack.len() == 0,
        Err(e) => reached.failed is Some && e == (WaveError::Contradiction {
            x: reached.failed->0.x,
            y: reached.failed->0.y,
        }),
    }
}

/// What the random collapse makes of a settled grid: nothing where every
/// cell is collapsed, else the collapse of a cell that was not, to one of
/// its candidates.
pub open spec fn picked(mid: GridView, end: GridView) -> bool {
    if mid.uncollapsed() == Set::<(u32, u32)>::empty() {
        end == mid
    } else {
        exists|p: GridPosition, v: u32|
            mid.holds(p) && mid.cell(p).value is None && mid.cell(p).candidates.contains(v) && end
                == #[trigger] mid.collapse_at(p, v)
    }
}

/// `Rng::gen_range` of `rand::thread_rng()` over `0..bound`: some number
/// below `bound`. Two calls may differ.
#[verifier::external_body]
fn random_below(bound: u32) -> (n: u32)
    requires
        bound > 0,
    ensures
        n < bound,
{
    rand::thread_rng().gen_range(0..bound)
}

/// Sets the engine up: a grid of `width` by `height` cells over all the
/// codes of the catalog, in which one cell picked at random is collapsed to
/// a code picked at random.
pub fn get_init_resource(config: ConfigMap, width: u32, height: u32) -> (made: (
    WaveConfig,
    WaveGrid,
))
    requires
        width > 0,
        height > 0,
        exists|code: u32| config@.contains_key(code),
    ensures
        made.0.0 == config,
        made.1.wf(),
        made.1@.within(config@.dom()),
        exists|p: GridPosition, v: u32|
            p.x < width && p.y < height && config@.contains_key(v) && made.1@
                == #[trigger] GridView::fresh(width as nat, height as nat, config@.dom()).collapse_at(
                p,
                v,
            ),
{
    let all_possible_value = config.all_codes();
    proof {
        let code = choose|code: u32| config@.contains_key(code);
        assert(all_possible_value@.contains(code));
    }
    let random_value = all_possible_value.choose_random().unwrap();
    let random_x = random_below(width);
    let random_y = random_below(height);
    let mut wave_grid = WaveGrid::new(width as usize, height as usize, all_possible_value);
    let ghost fresh = wave_grid@;
    let position = GridPosition::new(random_x, random_y);
    wave_grid.update_grid_item_value(position, random_value);
    proof {
        fresh.lemma_collapse_at(position, random_value);
        assert forall|q: GridPosition| #[trigger] wave_grid@.holds(q) implies wave_grid@.cell(
            q,
        ).within(config@.dom()) by {
            assert(fresh.holds(q));
            if q != position {
                assert(wave_grid@.cell(q) == fresh.cell(q));
            }
        }
    }
    (WaveConfig(config), wave_grid)
}

/// Empties the worklist: the position pushed last is taken off, what its
/// cell forbids restricts the neighbours above, to the right, below and to
/// the left, and so on until the worklist is empty. The first restriction
/// that leaves a cell without a candidate ends the propagation with that
/// contradiction; the grid then stands as it was at that moment.
pub fn propagate(wave_grid: &mut WaveGrid, config: &ConfigMap) -> (done: Result<(), WaveError>)
    requires
        old(wave_grid).wf(),
        old(wave_grid)@.within(config@.dom()),
    ensures
        final(wave_grid).wf(),
        final(wave_grid)@.refines(old(wave_grid)@),
        final(wave_grid)@.within(config@.dom()),
        exists|n: nat| settled(old(wave_grid)@, config@, n, final(wave_grid)@, done),
{
    let ghost start = wave_grid@;
    let ghost mut steps: nat = 0;
    let height = wave_grid.grid_value.0.len();
    let width = wave_grid.grid_value.0[0].len();
    loop
        invariant
            start == old(wave_grid)@,
            wave_grid.wf(),
            start.wf(),
            start.within(config@.dom()),
            height == wave_grid@.height(),
            width == wave_grid@.width(),
            start.drain(config@, steps) == (Progress { grid: wave_grid@, failed: None }),
        decreases wave_grid@.weight(), wave_grid@.stack.len(),
    {
        let ghost before = wave_grid@;
        proof {
            start.lemma_drain(config@, steps);
            before.lemma_refines_within(start, config@.dom());
        }
        let position = match wave_grid.stack.pop() {
            Some(position) => position,
            None => {
                assert(settled(start, config@, steps, wave_grid@, Ok::<(), WaveError>(())));
                return Ok(());
            },
        };
        let ghost popped = before.popped();
        let ghost relaxed = popped.relax_at(position, config@);
        proof {
            before.lemma_popped();
            assert(wave_grid@ == popped);
            assert(popped.uncollapsed() =~= before.uncollapsed());
            popped.lemma_refines_within(before, config@.dom());
            popped.lemma_relax_at(position, config@);
            start.lemma_drain_next(config@, steps);
            start.lemma_drain(config@, steps + 1);
            assert(popped.cells[position.y as int].len() == popped.width());
            assert forall|p: GridPosition| #[trigger] wave_grid@.holds(p) implies wave_grid.grid_value.0@[p.y as int]@[p.x as int].position
                == p by {
                assert(before.holds(p));
            }
            assert(wave_grid.wf());
        }
        let x = position.x;
        let y = position.y;
        let forbidden = wave_grid.grid_value.get_item(x, y).get_beside_impossible_value(config);
        let ghost f = forbidden_of(popped.cell(position), config@);
        let ghost s0 = Progress { grid: popped, failed: None };
        let ghost s1 = s0.then_restrict(y + 1 < popped.height(), at(x as int, y + 1), f.top);
        let ghost s2 = s1.then_restrict(x + 1 < popped.width(), at(x + 1, y as int), f.right);
        let ghost s3 = s2.then_restrict(y > 0, at(x as int, y - 1), f.bottom);
        proof {
            s0.lemma_then_restrict(y + 1 < popped.height(), at(x as int, y + 1), f.top);
            s1.lemma_then_restrict(x + 1 < popped.width(), at(x + 1, y as int), f.right);
            s2.lemma_then_restrict(y > 0, at(x as int, y - 1), f.bottom);
        }
        if y as usize != height - 1 {
            let above = wave_grid.update_grid(GridPosition::new(x, y + 1), &forbidden.top);
            if above.is_err() {
                proof {
                    assert(relaxed == s1);
                    assert(settled(start, config@, steps + 1, wave_grid@, above));
                    wave_grid@.lemma_refines_within(start, config@.dom());
                }
                return above;
            }
        }
        assert(wave_grid@ == s1.grid && s1.failed is None);
        if x as usize != width - 1 {
            let right = wave_grid.update_grid(GridPosition::new(x + 1, y), &forbidden.right);
            if right.is_err() {
                proof {
                    assert(relaxed == s2);
                    assert(settled(start, config@, steps + 1, wave_grid@, right));
                    wave_grid@.lemma_refines_within(start, config@.dom());
                }
                return right;
            }
        }
        assert(wave_grid@ == s2.grid && s2.failed is None);
        if y != 0 {
            let below = wave_grid.update_grid(GridPosition::new(x, y - 1), &forbidden.bottom);
            if below.is_err() {
                proof {
                    assert(relaxed == s3);
                    assert(settled(start, config@, steps + 1, wave_grid@, below));
                    wave_grid@.lemma_refines_within(start, config@.dom());
                }
                return below;
            }
        }
        assert(wave_grid@ == s3.grid && s3.failed is None);
        if x != 0 {
            let left = wave_grid.update_grid(GridPosition::new(x - 1, y), &forbidden.left);
            if left.is_err() {
                proof {
                    assert(settled(start, config@, steps + 1, wave_grid@, left));
                    wave_grid@.lemma_refines_within(start, config@.dom());
                }
                return left;
            }
        }
        proof {
            assert(wave_grid@ == relaxed.grid && relaxed.failed is None);
            steps = steps + 1;
        }
    }
}

/// One step of the engine: the propagation, and after it, unless every cell
/// is collapsed, the collapse of one cell picked at random to one of its
/// candidates picked at random.
pub fn wave_function_collapse(wave_grid: &mut WaveGrid, wave_config: &WaveConfig) -> (done: Result<
    (),
    WaveError,
>)
    requires
        old(wave_grid).wf(),
        old(wave_grid)@.within(wave_config.0@.dom()),
    ensures
        final(wave_grid).wf(),
        final(wave_grid)@.refines(old(wave_grid)@),
        final(wave_grid)@.within(wave_config.0@.dom()),
        done is Err ==> exists|n: nat|
            settled(old(wave_grid)@, wave_config.0@, n, final(wave_grid)@, done),
        done is Ok ==> exists|n: nat, mid: GridView| #[trigger]
            settled(old(wave_grid)@, wave_config.0@, n, mid, done) && picked(
                mid,
                final(wave_grid)@,
            ),
        final(wave_grid)@.uncollapsed().len() <= old(wave_grid)@.uncollapsed().len(),
        done is Ok && old(wave_grid)@.uncollapsed().len() > 0 ==> final(wave_grid)@.uncollapsed().len()
            < old(wave_grid)@.uncollapsed().len(),
{
    let ghost start = wave_grid@;
    let drained = propagate(wave_grid, &wave_config.0);
    let ghost mid = wave_grid@;
    let ghost n = choose|n: nat| settled(start, wave_config.0@, n, mid, drained);
    proof {
        mid.lemma_refines_within(start, wave_config.0@.dom());
        vstd::set_lib::lemma_len_subset(mid.uncollapsed(), start.uncollapsed());
    }
    if drained.is_err() {
        return drained;
    }
    let new_position = wave_grid.get_rand_not_collapse();
    if let Some(new_position) = new_position {
        let wave_grid_item = wave_grid.grid_value.get_item(new_position.x, new_position.y);
        proof {
            assert(mid.cells[new_position.y as int].len() == mid.width());
            assert(wave_grid_item@ == mid.cell(new_position));
            assert(mid.cell(new_position).sound());
            assert(mid.uncollapsed().contains((new_position.x, new_position.y)));
        }
        let new_value = wave_grid_item.possible_value.choose_random().unwrap();
        wave_grid.update_grid_item_value(new_position, new_value);
        proof {
            mid.lemma_collapse_at(new_position, new_value);
            assert forall|q: GridPosition| #[trigger] mid.holds(q) implies wave_grid@.cell(q).follows(
                mid.cell(q),
            ) by {
                if q != new_position {
                    assert(wave_grid@.cell(q) == mid.cell(q));
                }
            }
            wave_grid@.lemma_refines_trans(mid, start);
            wave_grid@.lemma_refines_within(start, wave_config.0@.dom());
            assert(settled(start, wave_config.0@, n, mid, drained) && picked(mid, wave_grid@));
        }
    } else {
        proof {
            assert(settled(start, wave_config.0@, n, mid, drained) && picked(mid, wave_grid@));
        }
    }
    drained
}

/// Runs the engine until every cell is collapsed, or until a contradiction
/// stops it.
pub fn collapse_all(wave_grid: &mut WaveGrid, wave_config: &WaveConfig) -> (done: Result<
    (),
    WaveError,
>)
    requires
        old(wave_grid).wf(),
        old(wave_grid)@.within(wave_config.0@.dom()),
    ensures
        final(wave_grid).wf(),
        final(wave_grid)@.refines(old(wave_grid)@),
        final(wave_grid)@.within(wave_config.0@.dom()),
        done is Ok ==> final(wave_grid)@.uncollapsed() == Set::<(u32, u32)>::empty(),
        done is Err ==> exists|mid: GridView, n: nat|
            mid.refines(old(wave_grid)@) && #[trigger] settled(
                mid,
                wave_config.0@,
                n,
                final(wave_grid)@,
                done,
            ),
{
    let ghost start = wave_grid@;
    proof {
        assert forall|q: GridPosition| #[trigger] start.holds(q) implies start.cell(q).follows(
            start.cell(q),
        ) by {}
    }
    while wave_grid.not_collapsed_set.len() > 0
        invariant
            start == old(wave_grid)@,
            wave_grid.wf(),
            wave_grid@.refines(start),
            wave_grid@.within(wave_config.0@.dom()),
        decreases wave_grid@.uncollapsed().len(),
    {
        let ghost before = wave_grid@;
        let stepped = wave_function_collapse(wave_grid, wave_config);
        proof {
            wave_grid@.lemma_refines_trans(before, start);
        }
        if stepped.is_err() {
            proof {
                let n = choose|n: nat| settled(before, wave_config.0@, n, wave_grid@, stepped);
                assert(before.refines(start) && settled(
                    before,
                    wave_config.0@,
                    n,
                    wave_grid@,
                    stepped,
                ));
            }
            return stepped;
        }
    }
    proof {
        wave_grid.not_collapsed_set@.lemma_len0_is_empty();
    }
    Ok(())
}

/// The bundles as plain values: each position with the characters of its
/// asset's name.
pub open spec fn bundle_views(bundles: Seq<(GridPosition, String)>) -> Seq<
    (GridPosition, Seq<char>),
> {
    Seq::new(bundles.len(), |i: int| (bundles[i].0, bundles[i].1@))
}

/// How a cell stands while the collapsed cells are handed out: as it was,
/// but for the mark of the cells already passed.
pub open spec fn marked_as(now: GridItem, was: GridItem, passed: bool) -> bool {
    &&& now.value == was.value
    &&& now.possible_value == was.possible_value
    &&& now.position == was.position
    &&& now.rendered == (was.rendered || (passed && was.value is Some))
}

/// Hands out every cell that is collapsed and was not handed out before,
/// row by row, each with its position and the asset of its value, and marks
/// it as rendered. Nothing else changes.
pub fn update_grid_rendering(config: &WaveConfig, wave_grid: &mut WaveGrid) -> (bundles: Vec<
    (GridPosition, String),
>)
    requires
        old(wave_grid).wf(),
        old(wave_grid)@.within(config.0@.dom()),
    ensures
        final(wave_grid).wf(),
        final(wave_grid)@ == old(wave_grid)@.all_rendered(),
        final(wave_grid)@.within(config.0@.dom()),
        bundle_views(bundles@) == old(wave_grid)@.renderable(config.0@),
{
    let ghost start = wave_grid@;
    let mut bundles: Vec<(GridPosition, String)> = Vec::new();
    let height = wave_grid.grid_value.0.len();
    let mut y: usize = 0;
    proof {
        assert(bundle_views(bundles@) =~= rows_pending(start.cells, 0, config.0@));
        assert forall|r: int| 0 <= r < height implies (#[trigger] wave_grid.grid_value.0@[r])@.len()
            == start.width() by {
            assert(start.cells[r].len() == start.width());
        }
    }
    while y < height
        invariant
            start == old(wave_grid)@,
            old(wave_grid).wf(),
            start.within(config.0@.dom()),
            height == start.height(),
            y <= height,
            wave_grid.stack == old(wave_grid).stack,
            wave_grid.not_collapsed_set == old(wave_grid).not_collapsed_set,
            wave_grid.grid_value.0@.len() == height,
            forall|r: int|
                0 <= r < height ==> (#[trigger] wave_grid.grid_value.0@[r])@.len() == start.width(),
            forall|r: int, c: int|
                0 <= r < height && 0 <= c < start.width() ==> marked_as(
                    #[trigger] wave_grid.grid_value.0@[r]@[c],
                    old(wave_grid).grid_value.0@[r]@[c],
                    r < y,
                ),
            bundle_views(bundles@) == rows_pending(start.cells, y as nat, config.0@),
        decreases height - y,
    {
        let width = wave_grid.grid_value.0[y].len();
        let mut x: usize = 0;
        proof {
            assert(start.cells[y as int].len() == start.width());
        }
        while x < width
            invariant
                start == old(wave_grid)@,
                old(wave_grid).wf(),
                start.within(config.0@.dom()),
                height == start.height(),
                y < height,
                width == start.width(),
                x <= width,
                wave_grid.stack == old(wave_grid).stack,
                wave_grid.not_collapsed_set == old(wave_grid).not_collapsed_set,
                wave_grid.grid_value.0@.len() == height,
                forall|r: int|
                    0 <= r < height ==> (#[trigger] wave_grid.grid_value.0@[r])@.len()
                        == start.width(),
                forall|r: int, c: int|
                    0 <= r < height && 0 <= c < start.width() ==> marked_as(
                        #[trigger] wave_grid.grid_value.0@[r]@[c],
                        old(wave_grid).grid_value.0@[r]@[c],
                        r < y || (r == y && c < x),
                    ),
                bundle_views(bundles@) == rows_pending(start.cells, y as nat, config.0@)
                    + row_pending(start.cells[y as int], y as int, x as nat, config.0@),
            decreases width - x,
        {
            let ghost here = GridPosition { x: x as u32, y: y as u32 };
            let ghost listed = bundle_views(bundles@);
            proof {
                assert(start.holds(here));
                assert(start.cell(here).within(config.0@.dom()));
                assert(marked_as(
                    wave_grid.grid_value.0@[y as int]@[x as int],
                    old(wave_grid).grid_value.0@[y as int]@[x as int],
                    false,
                ));
            }
            let grid_item = wave_grid.grid_value.get_item(x as u32, y as u32);
            if grid_item.get_value().is_some() && !grid_item.rendered {
                let (position, asset_path_str) = grid_item.get_model_bundle(&config.0);
                let position = *position;
                bundles.push((position, asset_path_str));
                wave_grid.grid_value.get_mut_item(x as u32, y as u32).rendered = true;
                proof {
                    assert(bundle_views(bundles@) =~= listed.push((position, asset_path_str@)));
                }
            }
            proof {
                assert forall|r: int, c: int|
                    0 <= r < height && 0 <= c < start.width() implies marked_as(
                    #[trigger] wave_grid.grid_value.0@[r]@[c],
                    old(wave_grid).grid_value.0@[r]@[c],
                    r < y || (r == y && c < x + 1),
                ) by {}
            }
            x += 1;
        }
        proof {
            assert(rows_pending(start.cells, (y + 1) as nat, config.0@) == rows_pending(
                start.cells,
                y as nat,
                config.0@,
            ) + row_pending(
                start.cells[y as int],
                y as int,
                start.cells[y as int].len(),
                config.0@,
            ));
        }
        y += 1;
    }
    proof {
        let done = start.all_rendered();
        assert forall|r: int| 0 <= r < height implies #[trigger] wave_grid@.cells[r] =~= done.cells[r] by {
            assert(start.cells[r].len() == start.width());
            assert forall|c: int| 0 <= c < start.width() implies wave_grid@.cells[r][c]
                == done.cells[r][c] by {
                assert(marked_as(
                    wave_grid.grid_value.0@[r]@[c],
                    old(wave_grid).grid_value.0@[r]@[c],
                    true,
                ));
            }
        }
        assert(wave_grid@.cells =~= done.cells);
        assert(wave_grid@ == done);
        start.lemma_all_rendered();
        assert forall|p: GridPosition| #[trigger] wave_grid@.holds(p) implies wave_grid.grid_value.0@[p.y as int]@[p.x as int].position
            == p by {
            assert(start.holds(p));
            assert(marked_as(
                wave_grid.grid_value.0@[p.y as int]@[p.x as int],
                old(wave_grid).grid_value.0@[p.y as int]@[p.x as int],
                true,
            ));
        }
        assert forall|p: GridPosition| #[trigger] done.holds(p) implies done.cell(p).within(
            config.0@.dom(),
        ) by {
            assert(start.holds(p));
        }
    }
    bundles
}

} // verus!
