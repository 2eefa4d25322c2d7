//! Events raised when assets finish loading.

use crate::assets::Handle;
use crate::scene::{MaterialData, MeshData};
use vstd::prelude::*;

verus! {

/// A mesh asset was loaded under `handle`.
#[derive(Debug, Clone)]
pub struct MeshLoadedEvent {
    pub handle: Handle<MeshData>,
    pub mesh_data: MeshData,
}

/// A material asset was loaded under `handle`.
#[derive(Debug, Clone)]
pub struct MaterialLoadedEvent {
    pub handle: Handle<MaterialData>,
    pub material_data: MaterialData,
}

} // verus!
