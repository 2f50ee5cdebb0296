//! The layers that every new map starts with.
use crate::data::LayerType;
use vstd::prelude::*;

verus! {

/// Used to create a new layer.
#[derive(Debug)]
pub struct NewLayerDto {
    /// The id of the map that the layer belongs to.
    pub map_id: i32,
    /// The kind of the layer.
    pub type_: LayerType,
    /// The name of the layer.
    pub name: String,
    /// Whether the layer is an alternative to another one of its kind.
    pub is_alternative: bool,
}

impl NewLayerDto {
    /// Whether this is the standard layer of kind `type_` for the map
    /// `map_id`, which goes by the name `name`.
    pub open spec fn is_standard(self, map_id: i32, type_: LayerType, name: Seq<char>) -> bool {
        &&& self.map_id == map_id
        &&& self.type_ == type_
        &&& self.name@ == name
        &&& !self.is_alternative
    }
}

/// The layers to create together with the map `map_id`: its base layer, then
/// its plants layer, neither of them an alternative.
pub fn standard_layers(map_id: i32) -> (layers: Vec<NewLayerDto>)
    ensures
        layers@.len() == 2,
        layers@[0].is_standard(map_id, LayerType::Base, "Base Layer"@),
        layers@[1].is_standard(map_id, LayerType::Plants, "Plants Layer"@),
{
    let mut layers: Vec<NewLayerDto> = Vec::new();
    layers.push(
        NewLayerDto {
            map_id,
            type_: LayerType::Base,
            name: "Base Layer".to_string(),
            is_alternative: false,
        },
    );
    layers.push(
        NewLayerDto {
            map_id,
            type_: LayerType::Plants,
            name: "Plants Layer".to_string(),
            is_alternative: false,
        },
    );
    layers
}

} // verus!
