//! Sample rows: a layer and a plant with fixed contents.
use vstd::prelude::*;

verus! {

/// The kind of a layer of a map.
#[derive(Debug, Clone, Copy, PartialEq, Eq, Structural)]
pub enum LayerType {
    /// The layer that holds the map's background image.
    Base,
    /// The layer that holds the plantings.
    Plants,
}

/// A row of the layers table.
#[derive(Debug)]
pub struct TestInsertableLayer {
    pub id: i32,
    pub map_id: i32,
    pub type_: LayerType,
    pub name: String,
    pub is_alternative: bool,
}

impl Default for TestInsertableLayer {
    /// The plants layer "Test Layer 1" of map -1, under the id -1.
    fn default() -> (layer: Self)
        ensures
            layer.id == -1,
            layer.map_id == -1,
            layer.type_ == LayerType::Plants,
            layer.name@ == "Test Layer 1"@,
            !layer.is_alternative,
    {
        Self {
            id: -1,
            map_id: -1,
            type_: LayerType::Plants,
            name: "Test Layer 1".to_string(),
            is_alternative: false,
        }
    }
}

/// A row of the plants table.
#[derive(Debug)]
pub struct TestInsertablePlant {
    pub id: i32,
    pub unique_name: String,
    pub common_name_en: Option<Vec<Option<String>>>,
}

impl Default for TestInsertablePlant {
    /// The plant "Test Plant 1" with the one common name "Testplant", under
    /// the id -1.
    fn default() -> (plant: Self)
        ensures
            plant.id == -1,
            plant.unique_name@ == "Test Plant 1"@,
            plant.common_name_en is Some,
            plant.common_name_en->Some_0@.len() == 1,
            plant.common_name_en->Some_0@[0] is Some,
            plant.common_name_en->Some_0@[0]->Some_0@ == "Testplant"@,
    {
        let mut names: Vec<Option<String>> = Vec::new();
        names.push(Some("Testplant".to_string()));
        Self { id: -1, unique_name: "Test Plant 1".to_string(), common_name_en: Some(names) }
    }
}

} // verus!
