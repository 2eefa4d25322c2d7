use alander::gltf::{name_or_default, GltfLoader, TrackKind};

#[test]
fn default_names() {
    assert_eq!(name_or_default(Some("Body"), "Node_", 3), "Body");
    assert_eq!(name_or_default(None, "Node_", 3), "Node_3");
    assert_eq!(name_or_default(None, "Material_", 0), "Material_0");
    assert_eq!(name_or_default(None, "Skin_", 1205), "Skin_1205");
    assert_eq!(name_or_default(None, "A", usize::MAX), format!("A{}", usize::MAX));
}

#[test]
fn meshes_numbered_across_nodes() {
    let prims = vec![vec![true, false, true], vec![], vec![true], vec![false]];
    let r = GltfLoader::assign_mesh_indices(&prims);
    assert_eq!(r, vec![vec![0, 1], vec![], vec![2], vec![]]);
}

#[test]
fn channels_merge_by_target() {
    let names: Vec<String> = ["hip", "knee", "hip", "hip", "knee"].iter().map(|s| s.to_string()).collect();
    let kinds = vec![
        TrackKind::Translation,
        TrackKind::Rotation,
        TrackKind::Scale,
        TrackKind::Translation,
        TrackKind::MorphWeights,
    ];
    let merged = GltfLoader::merge_channels(&names, &kinds);
    assert_eq!(merged.len(), 2);
    assert_eq!(merged[0].target_name, "hip");
    assert_eq!(merged[0].position_track, Some(3));
    assert_eq!(merged[0].scale_track, Some(2));
    assert_eq!(merged[0].rotation_track, None);
    assert_eq!(merged[1].target_name, "knee");
    assert_eq!(merged[1].rotation_track, Some(1));
    assert_eq!(merged[1].position_track, None);
}

#[test]
fn weights_only_channel_is_kept_empty() {
    let names = vec!["arm".to_string()];
    let merged = GltfLoader::merge_channels(&names, &vec![TrackKind::MorphWeights]);
    assert_eq!(merged.len(), 1);
    assert!(merged[0].position_track.is_none() && merged[0].rotation_track.is_none() && merged[0].scale_track.is_none());
}

#[test]
fn nodes_rebuilt_with_names_meshes_and_links() {
    let names = vec![Some("Root".to_string()), None, None];
    let transforms = vec![(0.0f32, 1.0f32), (2.0, 3.0), (4.0, 5.0)];
    let prims = vec![vec![], vec![true, true], vec![false, true]];
    let skins = vec![None, Some(0), None];
    let children = vec![vec![1, 2], vec![], vec![]];
    let nodes = GltfLoader::build_nodes(&names, &transforms, &prims, &skins, &children);
    assert_eq!(nodes.len(), 3);
    assert_eq!(nodes[0].name, "Root");
    assert_eq!(nodes[1].name, "Node_1");
    assert_eq!(nodes[2].name, "Node_2");
    assert_eq!(nodes[2].index, 2);
    assert_eq!(nodes[1].local_transform, (2.0, 3.0));
    assert_eq!(nodes[0].mesh_indices, Vec::<usize>::new());
    assert_eq!(nodes[1].mesh_indices, vec![0, 1]);
    assert_eq!(nodes[2].mesh_indices, vec![2]);
    assert_eq!(nodes[1].skin_index, Some(0));
    assert_eq!(nodes[0].children, vec![1, 2]);
}
