//! Plain values of requests about plantings.
use vstd::prelude::*;

verus! {

/// Used to move an existing planting.
#[derive(Debug, Clone, Copy, PartialEq, Eq, Structural)]
pub struct MovePlantingDto {
    /// The x coordinate of the position on the map.
    pub x: i32,
    /// The y coordinate of the position on the map.
    pub y: i32,
}

/// Query parameters for searching plantings.
#[derive(Debug)]
pub struct PlantingSearchParameters {
    /// The id of the plant the planting references.
    pub plant_id: Option<i32>,
    /// The id of the plants layer the planting is placed on.
    pub plants_layer_id: Option<i32>,
}

} // verus!
