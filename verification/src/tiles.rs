//! Sets of tile codes and of grid cells, kept in the hash sets of `bevy::utils`.
//!
//! The hash sets themselves are not verified. Each of their methods that the
//! library calls is reached through one private function whose contract is
//! believed as written; the public methods below are proved from those.

use bevy::utils::HashSet;
use rand::seq::IteratorRandom;
use vstd::prelude::*;

verus! {

/// A set of tile codes.
#[verifier::external_body]
#[derive(Debug)]
pub struct TileSet {
    codes: HashSet<u32>,
}

/// The tile codes that a `TileSet` holds.
pub uninterp spec fn tile_set_codes(s: TileSet) -> Set<u32>;

/// A set of grid cells, each given as `(x, y)`.
#[verifier::external_body]
#[derive(Debug)]
pub struct PositionSet {
    cells: HashSet<(u32, u32)>,
}

/// The cells that a `PositionSet` holds.
pub uninterp spec fn position_set_cells(s: PositionSet) -> Set<(u32, u32)>;

/// `n` is the number of items of `items`, which is finite.
pub open spec fn counts<T>(n: usize, items: Set<T>) -> bool {
    items.finite() && items.len() == n
}

/// `HashSet::default`: the new set holds nothing.
#[verifier::external_body]
fn codes_new() -> (s: TileSet)
    ensures
        tile_set_codes(s) == Set::<u32>::empty(),
{
    TileSet { codes: HashSet::default() }
}

/// `HashSet::len`: the number of codes held, which is finite.
#[verifier::external_body]
fn codes_len(s: &TileSet) -> (n: usize)
    ensures
        counts(n, tile_set_codes(*s)),
{
    s.codes.len()
}

/// `HashSet::contains`: whether the code is held.
#[verifier::external_body]
fn codes_contains(s: &TileSet, code: u32) -> (held: bool)
    ensures
        held == tile_set_codes(*s).contains(code),
{
    s.codes.contains(&code)
}

/// `HashSet::insert`: the code is added; the result tells whether it was new.
#[verifier::external_body]
fn codes_insert(s: &mut TileSet, code: u32) -> (fresh: bool)
    ensures
        tile_set_codes(*final(s)) == tile_set_codes(*old(s)).insert(code),
        fresh == !tile_set_codes(*old(s)).contains(code),
{
    s.codes.insert(code)
}

/// `Clone::clone` of the hash set: the copy holds the same codes.
#[verifier::external_body]
fn codes_clone(s: &TileSet) -> (copy: TileSet)
    ensures
        tile_set_codes(copy) == tile_set_codes(*s),
{
    TileSet { codes: s.codes.clone() }
}

/// `HashSet::retain` with `is_allowed` as the predicate: exactly the codes
/// that `forbidden` does not hold stay.
#[verifier::external_body]
fn codes_retain_allowed(s: &mut TileSet, forbidden: &TileSet)
    ensures
        tile_set_codes(*final(s)) == tile_set_codes(*old(s)).difference(
            tile_set_codes(*forbidden),
        ),
{
    s.codes.retain(|code| is_allowed(forbidden, *code))
}

/// `HashSet::intersection`, collected: the codes held by both sets.
#[verifier::external_body]
fn codes_intersection(a: &TileSet, b: &TileSet) -> (both: TileSet)
    ensures
        tile_set_codes(both) == tile_set_codes(*a).intersect(tile_set_codes(*b)),
{
    TileSet { codes: a.codes.intersection(&b.codes).cloned().collect() }
}

/// `HashSet::iter`, collected: every code held, each once, in no stated order.
#[verifier::external_body]
fn codes_to_vec(s: &TileSet) -> (listed: Vec<u32>)
    ensures
        listed@.no_duplicates(),
        listed@.to_set() == tile_set_codes(*s),
{
    s.codes.iter().cloned().collect()
}

/// The first item of `HashSet::iter`: some code of the set, or `None` when
/// the set is empty. Which code comes first is not stated.
#[verifier::external_body]
fn codes_first(s: &TileSet) -> (found: Option<u32>)
    ensures
        match found {
            Some(code) => tile_set_codes(*s).contains(code),
            None => forall|code: u32| !tile_set_codes(*s).contains(code),
        },
{
    s.codes.iter().next().cloned()
}

/// `IteratorRandom::choose` over `HashSet::iter` with `rand::thread_rng`:
/// some code of the set, or `None` when the set is empty. Two calls may
/// differ.
#[verifier::external_body]
fn codes_choose(s: &TileSet) -> (found: Option<u32>)
    ensures
        match found {
            Some(code) => tile_set_codes(*s).contains(code),
            None => forall|code: u32| !tile_set_codes(*s).contains(code),
        },
{
    s.codes.iter().choose(&mut rand::thread_rng()).cloned()
}

/// `HashSet::default`: the new set holds nothing.
#[verifier::external_body]
fn cells_new() -> (s: PositionSet)
    ensures
        position_set_cells(s) == Set::<(u32, u32)>::empty(),
{
    PositionSet { cells: HashSet::default() }
}

/// `HashSet::len`: the number of cells held, which is finite.
#[verifier::external_body]
fn cells_len(s: &PositionSet) -> (n: usize)
    ensures
        counts(n, position_set_cells(*s)),
{
    s.cells.len()
}

/// `HashSet::contains`: whether the cell is held.
#[verifier::external_body]
fn cells_contains(s: &PositionSet, cell: (u32, u32)) -> (held: bool)
    ensures
        held == position_set_cells(*s).contains(cell),
{
    s.cells.contains(&cell)
}

/// `HashSet::insert`: the cell is added; the result tells whether it was new.
#[verifier::external_body]
fn cells_insert(s: &mut PositionSet, cell: (u32, u32)) -> (fresh: bool)
    ensures
        position_set_cells(*final(s)) == position_set_cells(*old(s)).insert(cell),
        fresh == !position_set_cells(*old(s)).contains(cell),
{
    s.cells.insert(cell)
}

/// `HashSet::remove`: the cell leaves; the result tells whether it was held.
#[verifier::external_body]
fn cells_remove(s: &mut PositionSet, cell: (u32, u32)) -> (held: bool)
    ensures
        position_set_cells(*final(s)) == position_set_cells(*old(s)).remove(cell),
        held == position_set_cells(*old(s)).contains(cell),
{
    s.cells.remove(&cell)
}

/// `IteratorRandom::choose` over `HashSet::iter` with `rand::thread_rng`:
/// some cell of the set, or `None` when the set is empty. Two calls may
/// differ.
#[verifier::external_body]
fn cells_choose(s: &PositionSet) -> (found: Option<(u32, u32)>)
    ensures
        match found {
            Some(cell) => position_set_cells(*s).contains(cell),
            None => forall|cell: (u32, u32)| !position_set_cells(*s).contains(cell),
        },
{
    s.cells.iter().cloned().choose(&mut rand::thread_rng())
}

/// The set of the first `n + 1` items of a sequence is the set of the first
/// `n` with the next item added.
pub proof fn lemma_take_next_to_set(s: Seq<u32>, n: int)
    requires
        0 <= n < s.len(),
    ensures
        s.take(n + 1).to_set() == s.take(n).to_set().insert(s[n]),
{
    let before = s.take(n);
    let after = s.take(n + 1);
    assert forall|c: u32| after.to_set().contains(c) implies before.to_set().insert(s[n]).contains(
        c,
    ) by {
        let k = choose|k: int| 0 <= k < after.len() && after[k] == c;
        if k < n {
            assert(before[k] == c);
        }
    }
    assert forall|c: u32| before.to_set().insert(s[n]).contains(c) implies after.to_set().contains(
        c,
    ) by {
        if c == s[n] {
            assert(after[n] == c);
        } else {
            let k = choose|k: int| 0 <= k < before.len() && before[k] == c;
            assert(after[k] == c);
        }
    }
    assert(after.to_set() =~= before.to_set().insert(s[n]));
}

/// Whether `code` may stay in a candidate set that `forbidden` restricts.
pub fn is_allowed(forbidden: &TileSet, code: u32) -> (allowed: bool)
    ensures
        allowed == !forbidden@.contains(code),
{
    !codes_contains(forbidden, code)
}

impl View for TileSet {
    type V = Set<u32>;

    open spec fn view(&self) -> Set<u32> {
        tile_set_codes(*self)
    }
}

impl Clone for TileSet {
    fn clone(&self) -> (copy: Self)
        ensures
            copy@ == self@,
    {
        codes_clone(self)
    }
}

impl TileSet {
    /// The empty set.
    pub fn new() -> (s: Self)
        ensures
            s@ == Set::<u32>::empty(),
    {
        codes_new()
    }

    /// The set of the codes listed in `codes`.
    pub fn from_vec(codes: &Vec<u32>) -> (s: Self)
        ensures
            s@ == codes@.to_set(),
            s@.finite(),
    {
        let mut s = codes_new();
        let mut i: usize = 0;
        while i < codes.len()
            invariant
                i <= codes.len(),
                s@ == codes@.take(i as int).to_set(),
            decreases codes.len() - i,
        {
            codes_insert(&mut s, codes[i]);
            proof {
                lemma_take_next_to_set(codes@, i as int);
            }
            i += 1;
        }
        proof {
            assert(codes@.take(codes.len() as int) == codes@);
            vstd::seq_lib::seq_to_set_is_finite(codes@);
        }
        s
    }

    /// The number of codes in the set.
    pub fn len(&self) -> (n: usize)
        ensures
            self@.finite(),
            n == self@.len(),
    {
        codes_len(self)
    }

    /// Whether the set holds no code.
    pub fn is_empty(&self) -> (empty: bool)
        ensures
            self@.finite(),
            empty == (self@.len() == 0),
    {
        codes_len(self) == 0
    }

    /// Whether the set holds `code`.
    pub fn contains(&self, code: u32) -> (held: bool)
        ensures
            held == self@.contains(code),
    {
        codes_contains(self, code)
    }

    /// Adds `code`; tells whether it was new.
    pub fn insert(&mut self, code: u32) -> (fresh: bool)
        ensures
            final(self)@ == old(self)@.insert(code),
            fresh == !old(self)@.contains(code),
    {
        codes_insert(self, code)
    }

    /// Removes every code that `forbidden` holds.
    pub fn remove_all(&mut self, forbidden: &TileSet)
        ensures
            final(self)@ == old(self)@.difference(forbidden@),
    {
        codes_retain_allowed(self, forbidden)
    }

    /// The codes that both sets hold.
    pub fn intersection(&self, other: &TileSet) -> (both: TileSet)
        ensures
            both@ == self@.intersect(other@),
    {
        codes_intersection(self, other)
    }

    /// Every code of the set, each once. The order is not fixed.
    pub fn to_vec(&self) -> (listed: Vec<u32>)
        ensures
            listed@.no_duplicates(),
            listed@.to_set() == self@,
            self@.finite(),
            listed@.len() == self@.len(),
    {
        let listed = codes_to_vec(self);
        proof {
            vstd::seq_lib::seq_to_set_is_finite(listed@);
            listed@.unique_seq_to_set();
        }
        listed
    }

    /// Some code of the set, or `None` when it is empty.
    pub fn first(&self) -> (found: Option<u32>)
        ensures
            found is Some ==> self@.contains(found->0),
            found is None ==> self@ == Set::<u32>::empty(),
    {
        let found = codes_first(self);
        proof {
            if found is None {
                assert(self@ =~= Set::<u32>::empty());
            }
        }
        found
    }

    /// A code of the set picked at random, or `None` when it is empty.
    pub fn choose_random(&self) -> (found: Option<u32>)
        ensures
            found is Some ==> self@.contains(found->0),
            found is None ==> self@ == Set::<u32>::empty(),
    {
        let found = codes_choose(self);
        proof {
            if found is None {
                assert(self@ =~= Set::<u32>::empty());
            }
        }
        found
    }
}

impl View for PositionSet {
    type V = Set<(u32, u32)>;

    open spec fn view(&self) -> Set<(u32, u32)> {
        position_set_cells(*self)
    }
}

impl PositionSet {
    /// The empty set.
    pub fn new() -> (s: Self)
        ensures
            s@ == Set::<(u32, u32)>::empty(),
    {
        cells_new()
    }

    /// The number of cells in the set.
    pub fn len(&self) -> (n: usize)
        ensures
            self@.finite(),
            n == self@.len(),
    {
        cells_len(self)
    }

    /// Whether the set holds the cell.
    pub fn contains(&self, cell: (u32, u32)) -> (held: bool)
        ensures
            held == self@.contains(cell),
    {
        cells_contains(self, cell)
    }

    /// Adds the cell; tells whether it was new.
    pub fn insert(&mut self, cell: (u32, u32)) -> (fresh: bool)
        ensures
            final(self)@ == old(self)@.insert(cell),
            fresh == !old(self)@.contains(cell),
    {
        cells_insert(self, cell)
    }

    /// Removes the cell; tells whether it was held.
    pub fn remove(&mut self, cell: (u32, u32)) -> (held: bool)
        ensures
            final(self)@ == old(self)@.remove(cell),
            held == old(self)@.contains(cell),
    {
        cells_remove(self, cell)
    }

    /// A cell of the set picked at random, or `None` when it is empty.
    pub fn choose_random(&self) -> (found: Option<(u32, u32)>)
        ensures
            found is Some ==> self@.contains(found->0),
            found is None ==> self@ == Set::<(u32, u32)>::empty(),
    {
        let found = cells_choose(self);
        proof {
            if found is None {
                assert(self@ =~= Set::<(u32, u32)>::empty());
            }
        }
        found
    }
}

} // verus!
