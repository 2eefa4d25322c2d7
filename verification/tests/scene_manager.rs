use alander::scene_manager::{Scene, SceneHandle, SceneManager};

#[test]
fn first_scene_becomes_active() {
    let mut m = SceneManager::new();
    assert!(m.active_scene().is_none());
    let a = m.create_scene("A");
    let b = m.create_scene("B");
    assert_ne!(a, b);
    assert_eq!(m.active_scene().unwrap().name, "A");
    assert!(m.set_active_scene(b));
    assert_eq!(m.active_scene().unwrap().name, "B");
    assert_eq!(m.get_scenes().len(), 2);
}

#[test]
fn set_active_unknown_is_refused() {
    let mut m = SceneManager::new();
    let a = m.create_scene("A");
    assert!(!m.set_active_scene(SceneHandle(12345)));
    assert_eq!(m.active_scene().unwrap().handle, a);
}

#[test]
fn removing_active_scene_clears_it() {
    let mut m = SceneManager::new();
    let a = m.create_scene("A");
    let b = m.create_scene("B");
    assert!(m.remove_scene(a));
    assert!(m.active_scene().is_none());
    assert!(!m.remove_scene(a));
    assert!(m.set_active_scene(b));
    let names: Vec<String> = m.get_scenes().iter().map(|(_, n)| n.to_string()).collect();
    assert_eq!(names, vec!["B".to_string()]);
}

#[test]
fn scene_from_object_becomes_active() {
    let mut m = SceneManager::new();
    m.create_scene("A");
    let h = m.create_scene_from_object(Scene::new("Loaded"));
    assert_eq!(m.active_scene().unwrap().handle, h);
    assert_eq!(m.active_scene().unwrap().name, "Loaded");
}

#[test]
fn active_scene_mut_writes_back() {
    let mut m = SceneManager::new();
    m.create_scene("A");
    m.active_scene_mut().unwrap().name = "Renamed".to_string();
    assert_eq!(m.active_scene().unwrap().name, "Renamed");
}

#[test]
fn add_scene_keeps_active() {
    let mut m = SceneManager::new();
    let a = m.create_scene("A");
    let b = m.add_scene(Scene::new("B"));
    assert_eq!(m.active_scene().unwrap().handle, a);
    let listed: Vec<SceneHandle> = m.get_scenes().iter().map(|(h, _)| **h).collect();
    assert!(listed.contains(&a) && listed.contains(&b));
}

#[test]
fn new_scene_is_empty() {
    let s = Scene::new("Empty");
    assert_eq!(s.world.entities().len(), 0);
    assert!(s.mesh_manager.is_empty());
    assert!(s.material_manager.is_empty());
}

#[test]
fn remove_entity_despawns_subtree() {
    let mut s = Scene::new("S");
    let a = s.world.spawn_empty().id();
    let b = s.world.spawn_empty().id();
    let c = s.world.spawn_empty().id();
    let d = s.world.spawn_empty().id();
    s.hierarchy.set_parent(b.to_bits(), Some(a.to_bits()));
    s.hierarchy.set_parent(c.to_bits(), Some(b.to_bits()));
    assert!(s.remove_entity(b.to_bits()));
    assert!(s.world.get_entity(b).is_none());
    assert!(s.world.get_entity(c).is_none());
    assert!(s.world.get_entity(a).is_some());
    assert!(s.world.get_entity(d).is_some());
    assert_eq!(s.hierarchy.children_of(a.to_bits()), Vec::<u64>::new());
}

#[test]
fn scene_handles_are_version_four_uuids() {
    for _ in 0..20 {
        let h = SceneHandle::new();
        assert_eq!((h.0 >> 76) & 0xf, 4);
        assert_eq!((h.0 >> 62) & 0x3, 2);
    }
    let s = Scene::new("S");
    assert_eq!((s.handle.0 >> 76) & 0xf, 4);
}
