//! One layer of a map: which tile lies at which cell.

use vstd::prelude::*;
use vstd::std_specs::iter::IteratorSpec;
use std::collections::HashMap;
use crate::tile::TileType;

verus! {

broadcast use vstd::std_specs::hash::group_hash_axioms;

/// The largest coordinate a tile can be placed at: a map file stores each
/// coordinate in four decimal digits.
pub const GRID_MAX: u32 = 9999;

/// The cell of the grid at which a tile lies: the pixel coordinates of its
/// top left corner.
#[derive(Debug, Clone, Copy, PartialEq, Eq, Hash)]
pub struct TileIndex(pub (u32, u32));

impl TileIndex {
    /// Whether a map can hold a tile at this cell.
    pub open spec fn spec_in_grid(&self) -> bool {
        self.0.0 <= GRID_MAX && self.0.1 <= GRID_MAX
    }

    /// Whether a map can hold a tile at this cell.
    #[verifier::when_used_as_spec(spec_in_grid)]
    pub fn in_grid(&self) -> (yes: bool)
        ensures
            yes == self.spec_in_grid(),
    {
        self.0.0 <= GRID_MAX && self.0.1 <= GRID_MAX
    }

    /// The number under which a map keeps this cell.
    spec fn spec_key(&self) -> u32
        recommends
            self.spec_in_grid(),
    {
        (self.0.0 * 10000 + self.0.1) as u32
    }

    /// The number under which a map keeps this cell.
    #[verifier::when_used_as_spec(spec_key)]
    fn key(&self) -> (key: u32)
        requires
            self.spec_in_grid(),
        ensures
            key == self.spec_key(),
    {
        self.0.0 * 10000 + self.0.1
    }
}

/// What a map records of a placed tile: its kind, and the handle of the
/// entity that shows it.
#[derive(Debug, Clone, Copy, PartialEq, Eq, Structural)]
pub struct Placement {
    pub tile: TileType,
    pub entity: u64,
}

/// One layer of a map: the tiles placed on it, by cell.
#[derive(Debug)]
pub struct TileMap {
    cells: HashMap<u32, Placement>,
}

impl View for TileMap {
    type V = Map<TileIndex, Placement>;

    closed spec fn view(&self) -> Map<TileIndex, Placement> {
        Map::new(
            |index: TileIndex| index.spec_in_grid() && self.cells@.contains_key(index.spec_key()),
            |index: TileIndex| self.cells@[index.spec_key()],
        )
    }
}

/// Whether `found` lists the tiles of `map`: each of them once, under its
/// cell, and nothing else. The order is left open.
pub open spec fn lists_tiles(
    found: Seq<(TileIndex, Placement)>,
    map: Map<TileIndex, Placement>,
) -> bool {
    &&& forall|i: int|
        0 <= i < found.len() ==> map.contains_key(#[trigger] found[i].0) && map[found[i].0]
            == found[i].1
    &&& forall|i: int, j: int|
        0 <= i < j < found.len() ==> #[trigger] found[i].0 != #[trigger] found[j].0
    &&& forall|index: TileIndex| #[trigger]
        map.contains_key(index) ==> exists|i: int| 0 <= i < found.len() && found[i].0 == index
}

impl TileMap {
    /// Whether the layer is in order inside. Every layer this crate hands
    /// out is, and stays so.
    pub closed spec fn wf(&self) -> bool {
        forall|key: u32| #[trigger]
            self.cells@.contains_key(key) ==> key < 100_000_000
    }

    /// Every tile a layer holds lies in the grid.
    pub proof fn lemma_tiles_valid(&self)
        requires
            self.wf(),
        ensures
            forall|index: TileIndex| #[trigger] self@.contains_key(index) ==> index.spec_in_grid(),
    {
    }

    /// A layer with no tile on it.
    pub fn new() -> (map: TileMap)
        ensures
            map.wf(),
            map@ == Map::<TileIndex, Placement>::empty(),
    {
        let map = TileMap { cells: HashMap::new() };
        map
    }

    /// The tile at `index`, if there is one.
    pub fn get(&self, index: TileIndex) -> (found: Option<Placement>)
        ensures
            found == if self@.contains_key(index) {
                Some(self@[index])
            } else {
                None
            },
    {
        if !index.in_grid() {
            return None;
        }
        let key: u32 = index.key();
        match self.cells.get(&key) {
            Some(placement) => Some(*placement),
            None => None,
        }
    }

    /// Puts `placement` at `index`, in place of what was there. A cell
    /// outside the grid takes no tile: the layer then stays as it is. Says
    /// whether the tile was put.
    pub fn insert(&mut self, index: TileIndex, placement: Placement) -> (put: bool)
        requires
            old(self).wf(),
        ensures
            final(self).wf(),
            put == index.spec_in_grid(),
            final(self)@ == if put {
                old(self)@.insert(index, placement)
            } else {
                old(self)@
            },
    {
        if !index.in_grid() {
            return false;
        }
        let key: u32 = index.key();
        self.cells.insert(key, placement);
        true
    }

    /// Takes the tile at `index` off the layer and hands it out, if there is
    /// one.
    pub fn remove(&mut self, index: TileIndex) -> (taken: Option<Placement>)
        requires
            old(self).wf(),
        ensures
            final(self).wf(),
            taken == if old(self)@.contains_key(index) {
                Some(old(self)@[index])
            } else {
                None
            },
            final(self)@ == old(self)@.remove(index),
    {
        if !index.in_grid() {
            return None;
        }
        let key: u32 = index.key();
        let taken = self.cells.remove(&key);
        taken
    }

    /// Takes every tile off the layer.
    pub fn clear(&mut self)
        ensures
            final(self).wf(),
            final(self)@ == Map::<TileIndex, Placement>::empty(),
    {
        self.cells.clear();
    }

    /// The tiles of the layer with their cells, in the order in which the
    /// hash map yields them.
    pub fn entries(&self) -> (found: Vec<(TileIndex, Placement)>)
        requires
            self.wf(),
        ensures
            lists_tiles(found@, self@),
    {
        let mut found: Vec<(TileIndex, Placement)> = Vec::new();
        let iter = self.cells.iter();
        let ghost items = iter.remaining();
        for entry in it: iter
            invariant
                self.wf(),
                found@.len() == it.index(),
                it.seq() == items,
                it.seq().no_duplicates(),
                forall|i: int|
                    0 <= i < it.seq().len() ==> self.cells@.contains_key(
                        *(#[trigger] it.seq()[i]).0,
                    ) && self.cells@[*it.seq()[i].0] == *it.seq()[i].1,
                forall|key: u32| #[trigger]
                    self.cells@.contains_key(key) ==> it.seq().contains((&key, &self.cells@[key])),
                forall|i: int|
                    0 <= i < found@.len() ==> (#[trigger] found@[i]).0.spec_in_grid()
                        && found@[i].0.spec_key() == *it.seq()[i].0
                        && found@[i].1 == *it.seq()[i].1,
        {
            let (key, placement) = entry;
            found.push((TileIndex((*key / 10000, *key % 10000)), *placement));
        }
        assert forall|index: TileIndex| #[trigger] self@.contains_key(index) implies exists|i: int|
            0 <= i < found@.len() && found@[i].0 == index by {
            let key = index.spec_key();
            let item = (&key, &self.cells@[key]);
            let i = choose|i: int| 0 <= i < items.len() && items[i] == item;
            assert(found@[i].0.spec_key() == key);
        }
        assert forall|i: int, j: int| 0 <= i < j < found@.len() implies #[trigger] found@[i].0
            != #[trigger] found@[j].0 by {
            if found@[i].0 == found@[j].0 {
                assert(*items[i].0 == *items[j].0);
                assert(items[i] == items[j]);
            }
        }
        found
    }
}

} // verus!
