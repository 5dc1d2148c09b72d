//! The catalog of tiles: for each tile code the codes it forbids around it
//! and the name of its asset. It is filled once and then only read.

use crate::model::{ConstraintView, OptionsView};
use crate::tiles::TileSet;
use bevy::utils::HashMap;
use vstd::prelude::*;

verus! {

/// The codes that a tile forbids in the cell above, to the right, below and
/// to the left of its own.
#[derive(Debug)]
pub struct BesideImpossible {
    pub top: TileSet,
    pub right: TileSet,
    pub bottom: TileSet,
    pub left: TileSet,
}

/// What the catalog holds for one tile code.
#[derive(Debug)]
pub struct ModelConfigOptions {
    pub beside_impossible: BesideImpossible,
    pub asset_model: String,
}

/// The catalog, kept in a hash map of `bevy::utils`.
#[verifier::external_body]
#[derive(Debug)]
pub struct ConfigMap {
    entries: HashMap<u32, ModelConfigOptions>,
}

/// The entries that a `ConfigMap` holds, by tile code.
pub uninterp spec fn config_entries(c: ConfigMap) -> Map<u32, ModelConfigOptions>;

/// The catalog as the engine is given it.
#[derive(Debug)]
pub struct WaveConfig(pub ConfigMap);

/// What can stop the engine.
#[derive(Debug, Clone, Copy, PartialEq, Eq, Structural)]
pub enum WaveError {
    /// No candidate is left for the cell at `(x, y)`.
    Contradiction { x: u32, y: u32 },
    /// The catalog has no entry for the code.
    UnknownTileCode(u32),
}

/// `HashMap::default`: the new map holds nothing.
#[verifier::external_body]
fn entries_new() -> (fresh: ConfigMap)
    ensures
        config_entries(fresh) == (Map::<u32, ModelConfigOptions>::empty()),
{
    ConfigMap { entries: HashMap::default() }
}

/// `HashMap::insert`: the entry is set; the result is the entry that the
/// code had before, if it had one.
#[verifier::external_body]
fn entries_insert(
    c: &mut ConfigMap,
    code: u32,
    options: ModelConfigOptions,
) -> (before: Option<ModelConfigOptions>)
    ensures
        config_entries(*final(c)) == config_entries(*old(c)).insert(code, options),
        before == if config_entries(*old(c)).contains_key(code) {
            Some(config_entries(*old(c))[code])
        } else {
            None
        },
{
    c.entries.insert(code, options)
}

/// `HashMap::get`: the entry of the code, if it has one.
#[verifier::external_body]
fn entries_get(c: &ConfigMap, code: u32) -> (found: Option<&ModelConfigOptions>)
    ensures
        found == if config_entries(*c).contains_key(code) {
            Some(&config_entries(*c)[code])
        } else {
            None
        },
{
    c.entries.get(&code)
}

/// `HashMap::keys`, collected: every code with an entry, each once, in no
/// stated order.
#[verifier::external_body]
fn entries_codes(c: &ConfigMap) -> (listed: Vec<u32>)
    ensures
        listed@.no_duplicates(),
        listed@.to_set() == config_entries(*c).dom(),
{
    c.entries.keys().cloned().collect()
}

impl View for BesideImpossible {
    type V = ConstraintView;

    open spec fn view(&self) -> ConstraintView {
        ConstraintView {
            top: self.top@,
            right: self.right@,
            bottom: self.bottom@,
            left: self.left@,
        }
    }
}

impl Clone for BesideImpossible {
    fn clone(&self) -> (copy: Self)
        ensures
            copy@ == self@,
    {
        BesideImpossible {
            top: self.top.clone(),
            right: self.right.clone(),
            bottom: self.bottom.clone(),
            left: self.left.clone(),
        }
    }
}

impl View for ModelConfigOptions {
    type V = OptionsView;

    open spec fn view(&self) -> OptionsView {
        OptionsView { constraint: self.beside_impossible@, asset: self.asset_model@ }
    }
}

impl Clone for ModelConfigOptions {
    fn clone(&self) -> (copy: Self)
        ensures
            copy@ == self@,
    {
        ModelConfigOptions {
            beside_impossible: self.beside_impossible.clone(),
            asset_model: self.asset_model.clone(),
        }
    }
}

impl ModelConfigOptions {
    pub fn new(beside_impossible: BesideImpossible, asset_model: String) -> (options: Self)
        ensures
            options.beside_impossible == beside_impossible,
            options.asset_model == asset_model,
    {
        ModelConfigOptions { beside_impossible, asset_model }
    }
}

impl View for ConfigMap {
    type V = Map<u32, OptionsView>;

    open spec fn view(&self) -> Map<u32, OptionsView> {
        Map::new(
            |code: u32| config_entries(*self).contains_key(code),
            |code: u32| config_entries(*self)[code]@,
        )
    }
}

impl ConfigMap {
    /// The empty catalog.
    pub fn new() -> (c: Self)
        ensures
            c@ == Map::<u32, OptionsView>::empty(),
    {
        let c = entries_new();
        assert(c@ =~= Map::<u32, OptionsView>::empty());
        c
    }

    /// Sets the entry of `code`.
    pub fn insert(&mut self, code: u32, options: ModelConfigOptions)
        ensures
            final(self)@ == old(self)@.insert(code, options@),
    {
        let _ = entries_insert(self, code, options);
        assert(self@ =~= old(self)@.insert(code, options@));
    }

    /// The entry of `code`, or `UnknownTileCode` when the catalog has none.
    pub fn lookup(&self, code: u32) -> (found: Result<&ModelConfigOptions, WaveError>)
        ensures
            self@.contains_key(code) ==> found is Ok && found->Ok_0@ == self@[code],
            !self@.contains_key(code) ==> found == Err::<&ModelConfigOptions, WaveError>(
                WaveError::UnknownTileCode(code),
            ),
    {
        match entries_get(self, code) {
            Some(options) => Ok(options),
            None => Err(WaveError::UnknownTileCode(code)),
        }
    }

    /// The entry of `code`, if the catalog has one.
    pub fn get(&self, code: u32) -> (found: Option<&ModelConfigOptions>)
        ensures
            found == if config_entries(*self).contains_key(code) {
                Some(&config_entries(*self)[code])
            } else {
                None
            },
            found is Some == self@.contains_key(code),
            found is Some ==> found->0@ == self@[code],
    {
        entries_get(self, code)
    }

    /// Whether the catalog has an entry for `code`.
    pub fn contains(&self, code: u32) -> (held: bool)
        ensures
            held == self@.contains_key(code),
    {
        entries_get(self, code).is_some()
    }

    /// Every tile code of the catalog: the full domain of a cell.
    pub fn all_codes(&self) -> (codes: TileSet)
        ensures
            codes@ == self@.dom(),
            codes@.finite(),
    {
        let listed = entries_codes(self);
        let codes = TileSet::from_vec(&listed);
        assert(codes@ =~= self@.dom());
        codes
    }
}

} // verus!
