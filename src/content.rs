//! Extension points for encounter and item content. Neither generator
//! produces anything yet: both hand back empty content.
use vstd::prelude::*;
use rand::rngs::StdRng;
use crate::config::GenerationConfig;
use crate::error::ThatchResult;

verus! {

/// Places monsters and traps; produces nothing yet.
#[derive(Debug, Clone, Copy, PartialEq, Eq, Structural)]
pub struct EncounterGenerator;

/// Creates weapons, armour and consumables; produces nothing yet.
#[derive(Debug, Clone, Copy, PartialEq, Eq, Structural)]
pub struct ItemGenerator;

impl EncounterGenerator {
    /// The encounters of a level: none.
    pub fn generate(&self, config: &GenerationConfig, rng: &mut StdRng) -> (r: ThatchResult<Vec<String>>)
        ensures
            r matches Ok(v) && v@.len() == 0,
    {
        Ok(Vec::new())
    }

    /// Every list of encounters is accepted.
    pub fn validate(&self, content: &Vec<String>, config: &GenerationConfig) -> (r: ThatchResult<()>)
        ensures
            r is Ok,
    {
        Ok(())
    }

    /// The name of this generator.
    pub fn generator_type(&self) -> (r: &'static str)
        ensures
            r@ == "EncounterGenerator"@,
    {
        "EncounterGenerator"
    }
}

impl ItemGenerator {
    /// The items of a level: none.
    pub fn generate(&self, config: &GenerationConfig, rng: &mut StdRng) -> (r: ThatchResult<Vec<String>>)
        ensures
            r matches Ok(v) && v@.len() == 0,
    {
        Ok(Vec::new())
    }

    /// Every list of items is accepted.
    pub fn validate(&self, content: &Vec<String>, config: &GenerationConfig) -> (r: ThatchResult<()>)
        ensures
            r is Ok,
    {
        Ok(())
    }

    /// The name of this generator.
    pub fn generator_type(&self) -> (r: &'static str)
        ensures
            r@ == "ItemGenerator"@,
    {
        "ItemGenerator"
    }
}

} // verus!
