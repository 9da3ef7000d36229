//! Sounds played upon stepping on a block.

use vstd::prelude::*;

verus! {

/// The sound played by stepping on the respective material.
#[derive(Clone, Copy, Debug, PartialEq, Eq, Structural)]
pub enum StepSound {
    Powder,
    Wood,
    Gravel,
    Grass,
    Stone,
    Metal,
    Glass,
    Cloth,
    Sand,
}

/// The step sound a numeric identifier stands for.
pub open spec fn sound_of_id(id: int) -> StepSound {
    if id == 0 {
        StepSound::Powder
    } else if id == 1 {
        StepSound::Wood
    } else if id == 2 {
        StepSound::Gravel
    } else if id == 3 {
        StepSound::Grass
    } else if id == 4 {
        StepSound::Stone
    } else if id == 5 {
        StepSound::Metal
    } else if id == 6 {
        StepSound::Glass
    } else if id == 7 {
        StepSound::Cloth
    } else {
        StepSound::Sand
    }
}

impl StepSound {
    /// Looks a step sound up by its numeric identifier: the nine sounds
    /// carry the identifiers 0 through 8, anything else is rejected.
    pub fn try_from(id: usize) -> (r: Result<StepSound, &'static str>)
        ensures
            r is Ok <==> id <= 8,
            r matches Ok(s) ==> s == sound_of_id(id as int),
    {
        match id {
            0 => Ok(StepSound::Powder),
            1 => Ok(StepSound::Wood),
            2 => Ok(StepSound::Gravel),
            3 => Ok(StepSound::Grass),
            4 => Ok(StepSound::Stone),
            5 => Ok(StepSound::Metal),
            6 => Ok(StepSound::Glass),
            7 => Ok(StepSound::Cloth),
            8 => Ok(StepSound::Sand),
            _ => Err("invalid id for step sound"),
        }
    }
}

} // verus!
