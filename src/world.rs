//! The stack of floors of a dungeon.
use vstd::prelude::*;
use crate::level::Level;

verus! {

/// A dungeon: its floors, the floor the player is on, and the seed it was
/// built from.
#[derive(Debug, Clone)]
pub struct World {
    pub levels: Vec<Level>,
    pub current_level_id: u32,
    pub seed: u64,
}

/// `i` is the index of the first level whose id is `id`.
pub open spec fn level_index(levels: Seq<Level>, id: u32, i: int) -> bool {
    &&& 0 <= i < levels.len()
    &&& levels[i].id == id
    &&& forall|j: int| 0 <= j < i ==> (#[trigger] levels[j]).id != id
}

/// Some level has the id.
pub open spec fn has_level(levels: Seq<Level>, id: u32) -> bool {
    exists|i: int| 0 <= i < levels.len() && (#[trigger] levels[i]).id == id
}

impl World {
    /// An empty dungeon built from `seed`, the player on floor 0.
    pub fn new(seed: u64) -> (r: World)
        ensures
            r.levels@.len() == 0,
            r.current_level_id == 0,
            r.seed == seed,
    {
        World { levels: Vec::new(), current_level_id: 0, seed }
    }

    /// Index of the first level with the given id.
    pub(crate) fn find_level(&self, id: u32) -> (r: Option<usize>)
        ensures
            match r {
                Some(i) => level_index(self.levels@, id, i as int),
                None => !has_level(self.levels@, id),
            },
    {
        let mut i: usize = 0;
        while i < self.levels.len()
            invariant
                i <= self.levels@.len(),
                forall|j: int| 0 <= j < i ==> (#[trigger] self.levels@[j]).id != id,
            decreases self.levels@.len() - i,
        {
            if self.levels[i].id == id {
                return Some(i);
            }
            i = i + 1;
        }
        None
    }

    /// The level with the given id.
    pub fn get_level(&self, id: u32) -> (r: Option<&Level>)
        ensures
            match r {
                Some(l) => exists|i: int| level_index(self.levels@, id, i) && *l == self.levels@[i],
                None => !has_level(self.levels@, id),
            },
    {
        match self.find_level(id) {
            Some(i) => Some(&self.levels[i]),
            None => None,
        }
    }

    /// Stores a level under its id, replacing the level that had it.
    pub fn add_level(&mut self, level: Level)
        ensures
            final(self).current_level_id == old(self).current_level_id,
            final(self).seed == old(self).seed,
            !has_level(old(self).levels@, level.id) ==> final(self).levels@ == old(
                self,
            ).levels@.push(level),
            has_level(old(self).levels@, level.id) ==> exists|i: int|
                level_index(old(self).levels@, level.id, i) && final(self).levels@ == old(
                    self,
                ).levels@.update(i, level),
    {
        match self.find_level(level.id) {
            Some(i) => {
                self.levels.set(i, level);
            },
            None => {
                self.levels.push(level);
            },
        }
    }
}

} // verus!
