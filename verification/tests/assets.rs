use alander::assets::{AssetError, AssetLoader, AssetManager, Handle, SimpleMaterialLoader, SimpleMeshLoader};
use alander::scene::{MaterialData, MeshData, Vertex, FIXED_ONE};

fn to_vec4(c: [i32; 4]) -> glam::Vec4 {
    glam::Vec4::new(
        c[0] as f32 / FIXED_ONE as f32,
        c[1] as f32 / FIXED_ONE as f32,
        c[2] as f32 / FIXED_ONE as f32,
        c[3] as f32 / FIXED_ONE as f32,
    )
}

#[test]
fn test_asset_manager() {
    let mut manager = AssetManager::<MeshData>::new();

    let mesh = MeshData {
        name: "Test Mesh".to_string(),
        vertices: vec![],
        indices: vec![],
    };

    let handle = manager.load(mesh);
    assert!(manager.contains(&handle));
    assert_eq!(manager.len(), 1);

    let loaded_mesh = manager.get(&handle);
    assert!(loaded_mesh.is_some());
}

#[test]
fn test_mesh_loader() {
    let mut loader = SimpleMeshLoader;

    let result = loader.load("cube");
    assert!(result.is_ok());

    let mesh_data = result.unwrap();
    assert_eq!(mesh_data.vertices.len(), 4);
    assert_eq!(mesh_data.indices.len(), 6);

    let result = loader.load("nonexistent");
    assert!(result.is_err());
}

#[test]
fn test_material_loader() {
    let mut loader = SimpleMaterialLoader;

    let result = loader.load("default");
    assert!(result.is_ok());

    let material_data = result.unwrap();
    assert_eq!(material_data.name, "默认材质");

    let result = loader.load("red");
    assert!(result.is_ok());

    let material_data = result.unwrap();
    assert_eq!(material_data.name, "红色材质");
    assert_eq!(to_vec4(material_data.base_color), glam::Vec4::new(1.0, 0.0, 0.0, 1.0));
}

#[test]
fn handles_are_numbered_from_one() {
    let mut manager = AssetManager::<u32>::new();
    assert!(manager.is_empty());
    let a = manager.load(10);
    let b = manager.load(20);
    let c = manager.load(30);
    assert_eq!((a.id, b.id, c.id), (1, 2, 3));
    assert_eq!(manager.len(), 3);
    assert!(!manager.is_empty());
    assert_eq!(*manager.get(&b).unwrap(), 20);
    assert_eq!(*manager.get(&c).unwrap(), 30);
    assert_eq!(*manager.get(&a).unwrap(), 10);
}

#[test]
fn unknown_handle_is_absent() {
    let mut manager = AssetManager::<String>::new();
    let missing = Handle::<String>::new(7);
    assert!(!manager.contains(&missing));
    assert!(manager.get(&missing).is_none());
    let h = manager.load("x".to_string());
    assert!(manager.contains(&h));
    assert!(!manager.contains(&missing));
    assert!(manager.get(&Handle::new(0)).is_none());
}

#[test]
fn handle_equality_is_by_id() {
    let a = Handle::<MeshData>::new(5);
    let b = Handle::<MeshData>::new(5);
    let c = Handle::<MeshData>::new(6);
    assert!(a == b);
    assert!(a != c);
    let d = a;
    assert_eq!(d.id, 5);
}

#[test]
fn cube_quad_data() {
    let mesh = SimpleMeshLoader.load("cube").unwrap();
    assert_eq!(mesh.name, "Cube");
    assert_eq!(mesh.indices, vec![0, 1, 2, 2, 3, 0]);
    assert_eq!(mesh.vertices[0].position, [-500, -500, 500]);
    assert_eq!(mesh.vertices[2].position, [500, 500, 500]);
    assert_eq!(mesh.vertices[1].uv, [1000, 0]);
    assert_eq!(mesh.vertices[3].normal, [0, 0, 1000]);
    assert_eq!(mesh.vertices[3].tangent, [1000, 0, 0, 1000]);
}

#[test]
fn missing_mesh_message() {
    match SimpleMeshLoader.load("sphere") {
        Err(AssetError::NotFound(msg)) => assert_eq!(msg, "网格 'sphere' 未找到"),
        _ => panic!("expected NotFound"),
    }
}

#[test]
fn missing_material_message() {
    match SimpleMaterialLoader.load("blue") {
        Err(AssetError::NotFound(msg)) => assert_eq!(msg, "材质 'blue' 未找到"),
        _ => panic!("expected NotFound"),
    }
}

#[test]
fn default_material_values() {
    let m = MaterialData::default();
    assert_eq!(m.base_color, [800, 800, 800, 1000]);
    assert_eq!(m.metallic, 0);
    assert_eq!(m.roughness, 500);
    assert!(m.normal_texture.is_none());
    let d = SimpleMaterialLoader.load("default").unwrap();
    assert_eq!(d.base_color, m.base_color);
}

#[test]
fn vertex_constructors() {
    let v = Vertex::new([1, 2, 3], [0, 1000, 0], [0, 1000]);
    assert_eq!(v.tangent, [1000, 0, 0, 1000]);
    let w = Vertex::with_tangent([1, 2, 3], [0, 1000, 0], [0, 1000], [0, 0, 1000, -1000]);
    assert_eq!(w.tangent, [0, 0, 1000, -1000]);
    assert_eq!(w.position, v.position);
}

#[test]
fn handles_are_numbered_one_to_len() {
    let mut m: AssetManager<u32> = AssetManager::new();
    for k in 1..=5u64 {
        let h = m.load(k as u32 * 10);
        assert_eq!(h.id, k);
        assert_eq!(m.len() as u64, k);
        assert!(!m.is_empty());
    }
    assert!(!m.contains(&Handle::new(0)));
    assert!(!m.contains(&Handle::new(6)));
    for k in 1..=5u64 {
        assert!(m.contains(&Handle::new(k)));
        assert_eq!(*m.get(&Handle::new(k)).unwrap(), k as u32 * 10);
    }
}
