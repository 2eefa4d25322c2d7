//! Scene data that the editor stores per entity and per asset.
//!
//! Geometry and material values are fixed-point numbers in thousandths:
//! `FIXED_ONE` (1000) stands for 1.0, 500 for 0.5 and so on.

use crate::assets::Handle;
use crate::text::str_ends_with;
use vstd::prelude::*;

verus! {

/// The fixed-point value that stands for 1.0.
pub const FIXED_ONE: i32 = 1000;

/// The name of a scene entity.
#[derive(Debug, Clone)]
pub struct Name(pub String);

/// The persistent identifier of an entity (the 128 bits of a UUID).
#[derive(Debug, Clone, Copy, PartialEq, Eq, Hash)]
pub struct EntityUuid(pub u128);

/// Links an entity to the object that renders it (the 128 bits of a UUID).
#[derive(Debug, Clone, Copy, PartialEq, Eq, Hash)]
pub struct RenderId(pub u128);

/// A mesh vertex: position, normal, texture coordinate and tangent (with the
/// bitangent sign in its last component), all in fixed point.
#[derive(Debug, Clone, Copy)]
pub struct Vertex {
    pub position: [i32; 3],
    pub normal: [i32; 3],
    pub uv: [i32; 2],
    pub tangent: [i32; 4],
}

impl Vertex {
    /// A vertex with the default tangent (1, 0, 0, 1).
    pub fn new(position: [i32; 3], normal: [i32; 3], uv: [i32; 2]) -> (v: Self)
        ensures
            v.position == position,
            v.normal == normal,
            v.uv == uv,
            v.tangent == [FIXED_ONE, 0i32, 0i32, FIXED_ONE],
    {
        Vertex { position, normal, uv, tangent: [FIXED_ONE, 0, 0, FIXED_ONE] }
    }

    /// A vertex with an explicit tangent.
    pub fn with_tangent(position: [i32; 3], normal: [i32; 3], uv: [i32; 2], tangent: [i32; 4]) -> (v:
        Self)
        ensures
            v.position == position,
            v.normal == normal,
            v.uv == uv,
            v.tangent == tangent,
    {
        Vertex { position, normal, uv, tangent }
    }
}

/// Mesh geometry: a name, the vertices and the triangle index list.
#[derive(Debug, Clone)]
pub struct MeshData {
    pub name: String,
    pub vertices: Vec<Vertex>,
    pub indices: Vec<u32>,
}

/// A PBR material description; colours and factors in fixed point, textures
/// named by the index of their image.
#[derive(Debug, Clone)]
pub struct MaterialData {
    pub name: String,
    pub base_color: [i32; 4],
    pub metallic: i32,
    pub roughness: i32,
    pub normal_texture: Option<String>,
    pub base_color_texture: Option<String>,
    pub metallic_roughness_texture: Option<String>,
}

impl Default for MaterialData {
    /// The default material: light grey, not metallic, roughness 0.5.
    fn default() -> (m: Self)
        ensures
            m.name@ == "默认材质"@,
            m.base_color == [800i32, 800i32, 800i32, FIXED_ONE],
            m.metallic == 0,
            m.roughness == 500,
            m.normal_texture is None,
            m.base_color_texture is None,
            m.metallic_roughness_texture is None,
    {
        MaterialData {
            name: String::from_str("默认材质"),
            base_color: [800, 800, 800, FIXED_ONE],
            metallic: 0,
            roughness: 500,
            normal_texture: None,
            base_color_texture: None,
            metallic_roughness_texture: None,
        }
    }
}

/// Mesh component: the handle of the entity's mesh asset.
#[derive(Debug, Clone)]
pub struct Mesh {
    pub handle: Handle<MeshData>,
}

/// Material component: the handle of the entity's material asset.
#[derive(Debug, Clone)]
pub struct Material {
    pub handle: Handle<MaterialData>,
}

/// Where an entity's model came from, so that it can be loaded again.
#[derive(Debug, Clone)]
pub struct AssetPath {
    pub path: String,
    pub sub_asset: Option<String>,
}

/// Whether the path names a glTF file (`.glb` or `.gltf`).
pub open spec fn is_gltf_path(path: Seq<char>) -> bool {
    ||| (4 <= path.len() && path.subrange(path.len() - 4, path.len() as int) == ".glb"@)
    ||| (5 <= path.len() && path.subrange(path.len() - 5, path.len() as int) == ".gltf"@)
}

impl AssetPath {
    /// Whether the asset is a glTF model, which is reloaded from its file.
    pub fn is_gltf(&self) -> (r: bool)
        ensures
            r == is_gltf_path(self.path@),
    {
        proof {
            reveal_strlit(".glb");
            reveal_strlit(".gltf");
        }
        str_ends_with(self.path.as_str(), ".glb") || str_ends_with(self.path.as_str(), ".gltf")
    }
}

/// How a rigid body moves.
#[derive(Debug, Clone, Copy, PartialEq, Eq)]
pub enum RigidBodyType {
    /// Never moves.
    Static,
    /// Moved by forces.
    Dynamic,
    /// Moved by setting its velocity.
    KinematicVelocityBased,
    /// Moved by setting its position.
    KinematicPositionBased,
}

/// Rigid body component; the handle parts are set once the physics world
/// holds the body.
#[derive(Debug, Clone)]
pub struct RigidBody {
    pub body_type: RigidBodyType,
    pub handle_index: Option<u32>,
    pub handle_generation: Option<u32>,
}

impl RigidBody {
    /// A body of the given type that the physics world does not hold yet.
    pub fn new(body_type: RigidBodyType) -> (rb: Self)
        ensures
            rb.body_type == body_type,
            rb.handle_index is None,
            rb.handle_generation is None,
    {
        RigidBody { body_type, handle_index: None, handle_generation: None }
    }
}

} // verus!
