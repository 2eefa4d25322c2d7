//! Asset storage: handles, the asset manager and the built-in loaders.

use std::collections::HashMap;
use std::marker::PhantomData;
use std::sync::Arc;
use crate::scene::{MaterialData, MeshData, Vertex, FIXED_ONE};
use crate::text::{concat3, str_eq};
use vstd::prelude::*;

verus! {

/// A unique asset identifier, typed by the kind of asset it refers to.
#[derive(Debug, Eq, Hash)]
pub struct Handle<T> {
    pub id: u64,
    pub _phantom: PhantomData<T>,
}

impl<T> Handle<T> {
    /// Makes a handle for the given id.
    pub fn new(id: u64) -> (h: Self)
        ensures
            h.id == id,
    {
        Handle { id, _phantom: PhantomData }
    }
}

impl<T> Clone for Handle<T> {
    fn clone(&self) -> (h: Self)
        ensures
            h == *self,
    {
        Handle { id: self.id, _phantom: PhantomData }
    }
}

impl<T> Copy for Handle<T> {

}

impl<T> PartialEq for Handle<T> {
    fn eq(&self, other: &Self) -> (r: bool) {
        self.id == other.id
    }
}

impl<T> vstd::std_specs::cmp::PartialEqSpecImpl for Handle<T> {
    open spec fn obeys_eq_spec() -> bool {
        true
    }

    open spec fn eq_spec(&self, other: &Self) -> bool {
        self.id == other.id
    }
}

/// Shares the asset behind an `Arc` pointer.
///
/// Trusted: calls `Arc::clone`, which returns a new pointer to the same
/// allocation; the contract claims that the result holds the same value.
#[verifier::external_body]
fn share<T>(a: &Arc<T>) -> (r: Arc<T>)
    ensures
        r == *a,
{
    Arc::clone(a)
}

/// Keeps the loaded assets of one kind, each under the id of its handle.
pub struct AssetManager<T> {
    assets: HashMap<u64, Arc<T>>,
    next_id: u64,
}

impl<T> View for AssetManager<T> {
    type V = Map<u64, Arc<T>>;

    /// The stored assets, keyed by handle id.
    closed spec fn view(&self) -> Map<u64, Arc<T>> {
        self.assets@
    }
}

impl<T> AssetManager<T> {
    /// The id that the next loaded asset receives.
    pub closed spec fn next_id(&self) -> u64 {
        self.next_id
    }

    /// The stored ids are exactly 1 up to (not including) the next id to
    /// hand out, so there are `next_id - 1` assets.
    pub closed spec fn wf(&self) -> bool {
        &&& 1 <= self.next_id
        &&& forall|k: u64| #[trigger] self.assets@.contains_key(k) <==> 1 <= k < self.next_id
        &&& self.assets@.len() == self.next_id - 1
    }

    /// Makes an empty manager whose first handle gets id 1.
    pub fn new() -> (m: Self)
        ensures
            m.wf(),
            m@ == Map::<u64, Arc<T>>::empty(),
            m.next_id() == 1,
    {
        let m = AssetManager { assets: HashMap::new(), next_id: 1 };
        assert(m.assets@.dom() =~= Set::<u64>::empty());
        m
    }

    /// Stores `asset` under a fresh id and returns its handle.
    pub fn load(&mut self, asset: T) -> (h: Handle<T>)
        requires
            old(self).wf(),
            old(self).next_id() < u64::MAX,
        ensures
            final(self).wf(),
            h.id == old(self).next_id(),
            h.id == old(self)@.len() + 1,
            final(self)@.len() == old(self)@.len() + 1,
            !old(self)@.contains_key(h.id),
            final(self)@ == old(self)@.insert(h.id, Arc::new(asset)),
            final(self).next_id() == old(self).next_id() + 1,
    {
        broadcast use vstd::std_specs::hash::group_hash_axioms;
        let ghost before = self.assets@;
        let handle = Handle::new(self.next_id);
        self.next_id = self.next_id + 1;
        self.assets.insert(handle.id, Arc::new(asset));
        proof {
            assert(before.dom().finite());
            assert(!before.contains_key(handle.id));
            assert(self.assets@.dom() =~= before.dom().insert(handle.id));
        }
        handle
    }

    /// The asset stored under the handle's id, if any.
    pub fn get(&self, handle: &Handle<T>) -> (r: Option<Arc<T>>)
        ensures
            r == (if self@.contains_key(handle.id) {
                Some(self@[handle.id])
            } else {
                None::<Arc<T>>
            }),
    {
        broadcast use vstd::std_specs::hash::group_hash_axioms;
        match self.assets.get(&handle.id) {
            Some(a) => Some(share(a)),
            None => None,
        }
    }

    /// Whether an asset is stored under the handle's id.
    pub fn contains(&self, handle: &Handle<T>) -> (r: bool)
        ensures
            r == self@.contains_key(handle.id),
    {
        broadcast use vstd::std_specs::hash::group_hash_axioms;
        self.assets.contains_key(&handle.id)
    }

    /// The number of stored assets.
    pub fn len(&self) -> (n: usize)
        ensures
            n == self@.len(),
    {
        broadcast use vstd::std_specs::hash::group_hash_axioms;
        self.assets.len()
    }

    /// Whether no asset is stored.
    pub fn is_empty(&self) -> (r: bool)
        ensures
            r == (self@.len() == 0),
    {
        broadcast use vstd::std_specs::hash::group_hash_axioms;
        self.assets.is_empty()
    }
}

/// A loaded asset is found again by its handle, every asset loaded before
/// stays where it was, and the count grows by one: for a well-formed manager
/// `m`, loading `asset` stores it under `m.next_id()`, an id not yet used.
pub proof fn law_load_then_get<T>(m: AssetManager<T>, asset: T)
    requires
        m.wf(),
    ensures
        !m@.contains_key(m.next_id()),
        ({
            let after = m@.insert(m.next_id(), Arc::new(asset));
            &&& after.contains_key(m.next_id())
            &&& after[m.next_id()] == asset
            &&& after.len() == m@.len() + 1
            &&& forall|k: u64| #[trigger] m@.contains_key(k) ==> after.contains_key(k) && after[k]
                == m@[k]
        }),
{
    broadcast use vstd::std_specs::hash::group_hash_axioms;
    assert(m@.dom().finite());
}

/// The handles a manager has given out are exactly the ids 1 to the number
/// of stored assets, and the next one gets the id after: for a manager built
/// by `new` and `load`, `contains` holds for an id exactly when it is between
/// 1 and `len`, and the next `load` returns id `len + 1`.
pub proof fn law_ids_are_dense<T>(m: AssetManager<T>)
    requires
        m.wf(),
    ensures
        forall|k: u64| #[trigger] m@.contains_key(k) <==> 1 <= k && k <= m@.len(),
        m.next_id() == m@.len() + 1,
{
}

#[verifier::external_type_specification]
#[verifier::external_body]
pub struct ExIoError(std::io::Error);

/// Why an asset could not be loaded.
#[derive(Debug)]
pub enum AssetError {
    /// Reading the source failed.
    Io(std::io::Error),
    /// The source could not be decoded.
    Parse(String),
    /// No asset of that name exists.
    NotFound(String),
    /// The source uses a format that is not handled.
    UnsupportedFormat(String),
}

/// Produces an asset of type `T` from a named source.
pub trait AssetLoader<T> {
    fn load(&mut self, source: &str) -> Result<T, AssetError>;
}

/// The built-in test mesh loader.
pub struct SimpleMeshLoader;

/// The quad that the mesh loader returns for `"cube"`: the cube's front
/// face, facing +Z.
pub open spec fn cube_vertices() -> Seq<Vertex> {
    seq![
        Vertex { position: [-500i32, -500i32, 500i32], normal: [0i32, 0i32, 1000i32], uv: [0i32, 0i32], tangent: [1000i32, 0i32, 0i32, 1000i32] },
        Vertex { position: [500i32, -500i32, 500i32], normal: [0i32, 0i32, 1000i32], uv: [1000i32, 0i32], tangent: [1000i32, 0i32, 0i32, 1000i32] },
        Vertex { position: [500i32, 500i32, 500i32], normal: [0i32, 0i32, 1000i32], uv: [1000i32, 1000i32], tangent: [1000i32, 0i32, 0i32, 1000i32] },
        Vertex { position: [-500i32, 500i32, 500i32], normal: [0i32, 0i32, 1000i32], uv: [0i32, 1000i32], tangent: [1000i32, 0i32, 0i32, 1000i32] },
    ]
}

/// The two triangles of the quad.
pub open spec fn cube_indices() -> Seq<u32> {
    seq![0u32, 1u32, 2u32, 2u32, 3u32, 0u32]
}

impl AssetLoader<MeshData> for SimpleMeshLoader {
    /// `"cube"` gives the quad named `Cube`; any other source is not found.
    fn load(&mut self, source: &str) -> (r: Result<MeshData, AssetError>)
        ensures
            source@ == "cube"@ ==> (r matches Ok(m) && m.name@ == "Cube"@ && m.vertices@
                == cube_vertices() && m.indices@ == cube_indices()),
            source@ != "cube"@ ==> (r matches Err(AssetError::NotFound(msg)) && msg@ == "网格 '"@
                + source@ + "' 未找到"@),
    {
        if str_eq(source, "cube") {
            let n: [i32; 3] = [0, 0, FIXED_ONE];
            let t: [i32; 4] = [FIXED_ONE, 0, 0, FIXED_ONE];
            let vertices = vec![
                Vertex::with_tangent([-500, -500, 500], n, [0, 0], t),
                Vertex::with_tangent([500, -500, 500], n, [FIXED_ONE, 0], t),
                Vertex::with_tangent([500, 500, 500], n, [FIXED_ONE, FIXED_ONE], t),
                Vertex::with_tangent([-500, 500, 500], n, [0, FIXED_ONE], t),
            ];
            let indices: Vec<u32> = vec![0, 1, 2, 2, 3, 0];
            assert(vertices@ =~= cube_vertices());
            assert(indices@ =~= cube_indices());
            Ok(MeshData { name: String::from_str("Cube"), vertices, indices })
        } else {
            Err(AssetError::NotFound(concat3("网格 '", source, "' 未找到")))
        }
    }
}

/// The built-in test material loader.
pub struct SimpleMaterialLoader;

impl AssetLoader<MaterialData> for SimpleMaterialLoader {
    /// `"default"` gives the default material, `"red"` a red one; any other
    /// source is not found.
    fn load(&mut self, source: &str) -> (r: Result<MaterialData, AssetError>)
        ensures
            source@ == "default"@ ==> (r matches Ok(m) && m.name@ == "默认材质"@ && m.base_color
                == [800i32, 800i32, 800i32, 1000i32] && m.metallic == 0 && m.roughness == 500
                && m.normal_texture is None && m.base_color_texture is None
                && m.metallic_roughness_texture is None),
            source@ == "red"@ ==> (r matches Ok(m) && m.name@ == "红色材质"@ && m.base_color
                == [1000i32, 0i32, 0i32, 1000i32] && m.metallic == 0 && m.roughness == 500
                && m.normal_texture is None && m.base_color_texture is None
                && m.metallic_roughness_texture is None),
            source@ != "default"@ && source@ != "red"@ ==> (r matches Err(AssetError::NotFound(msg))
                && msg@ == "材质 '"@ + source@ + "' 未找到"@),
    {
        proof {
            reveal_strlit("default");
            reveal_strlit("red");
            assert("default"@.len() == 7);
            assert("red"@.len() == 3);
        }
        if str_eq(source, "default") {
            Ok(MaterialData::default())
        } else if str_eq(source, "red") {
            let base_color: [i32; 4] = [FIXED_ONE, 0, 0, FIXED_ONE];
            assert(base_color@ =~= [1000i32, 0i32, 0i32, 1000i32]@);
            assert(base_color == [1000i32, 0i32, 0i32, 1000i32]);
            let name = String::from_str("红色材质");
            Ok(
                MaterialData {
                    name,
                    base_color,
                    metallic: 0,
                    roughness: 500,
                    normal_texture: None,
                    base_color_texture: None,
                    metallic_roughness_texture: None,
                },
            )
        } else {
            Err(AssetError::NotFound(concat3("材质 '", source, "' 未找到")))
        }
    }
}

} // verus!
