//! Building kinds and their fixed game parameters.
use vstd::prelude::*;

verus! {

/// The kinds of buildings a player can place on a moon.
#[derive(Clone, Copy, Debug, PartialEq, Eq, Structural)]
pub enum BuildingType {
    Mining,
    Production,
}

/// Texture-atlas index of a moon that carries the given building.
pub open spec fn spec_moon_texture_index(building: BuildingType) -> u32 {
    match building {
        BuildingType::Mining => 9,
        BuildingType::Production => 8,
    }
}

/// Texture-atlas index that the building cursor shows.
pub open spec fn spec_cursor_texture_index(building: BuildingType) -> u32 {
    match building {
        BuildingType::Mining => 5,
        BuildingType::Production => 12,
    }
}

/// Resource cost of placing a building.
pub open spec fn spec_building_cost(building: BuildingType) -> u32 {
    match building {
        BuildingType::Mining => 20,
        BuildingType::Production => 15,
    }
}

/// Sprite index that a moon shows once the building stands on it.
pub fn building_moon_texture_index(building: BuildingType) -> (r: u32)
    ensures
        r == spec_moon_texture_index(building),
{
    match building {
        BuildingType::Mining => 9,
        BuildingType::Production => 8,
    }
}

/// Sprite index of the cursor that follows the mouse while placing the building.
pub fn building_cursor_texture(building: BuildingType) -> (r: u32)
    ensures
        r == spec_cursor_texture_index(building),
{
    match building {
        BuildingType::Mining => 5,
        BuildingType::Production => 12,
    }
}

/// Pink resources that placing the building costs.
pub fn building_cost(building: BuildingType) -> (r: u32)
    ensures
        r == spec_building_cost(building),
{
    match building {
        BuildingType::Mining => 20,
        BuildingType::Production => 15,
    }
}

} // verus!
