use alander::gizmo::{GizmoAction, GizmoAxis, GizmoManager, GizmoMode};
use alander::scene::{AssetPath, RigidBody, RigidBodyType};
use alander::ui::{EditorUI, MenuAction};

#[test]
fn gizmo_drag_cycle() {
    let mut g = GizmoManager::new();
    assert_eq!(g.mode, GizmoMode::Translate);
    assert_eq!(g.update(true, true, false, Some(GizmoAxis::X)), GizmoAction::Idle);
    assert_eq!(g.hovered_axis, Some(GizmoAxis::X));
    assert!(g.is_highlighted(GizmoAxis::X));
    assert!(!g.is_highlighted(GizmoAxis::Y));
    assert_eq!(g.update(true, true, true, Some(GizmoAxis::X)), GizmoAction::BeginDrag(GizmoAxis::X));
    assert_eq!(g.update(true, true, true, None), GizmoAction::Drag(GizmoAxis::X));
    assert_eq!(g.update(true, true, false, None), GizmoAction::EndDrag(GizmoAxis::X));
    assert_eq!(g.active_axis, None);
}

#[test]
fn gizmo_without_selection() {
    let mut g = GizmoManager::new();
    g.update(true, true, true, Some(GizmoAxis::Z));
    assert_eq!(g.active_axis, Some(GizmoAxis::Z));
    assert_eq!(g.update(false, true, true, Some(GizmoAxis::Z)), GizmoAction::Idle);
    assert_eq!(g.active_axis, None);
    assert_eq!(g.hovered_axis, None);
    g.update(true, true, false, Some(GizmoAxis::Y));
    assert_eq!(g.update(true, false, true, None), GizmoAction::Idle);
    assert_eq!(g.hovered_axis, Some(GizmoAxis::Y));
}

#[test]
fn gltf_paths() {
    let p = |s: &str| AssetPath { path: s.to_string(), sub_asset: None };
    assert!(p("models/a.glb").is_gltf());
    assert!(p("b.gltf").is_gltf());
    assert!(!p("cube").is_gltf());
    assert!(!p("x.gl").is_gltf());
    assert!(!p(".glbx").is_gltf());
}

#[test]
fn rigid_body_starts_detached() {
    let rb = RigidBody::new(RigidBodyType::Dynamic);
    assert_eq!(rb.body_type, RigidBodyType::Dynamic);
    assert!(rb.handle_index.is_none() && rb.handle_generation.is_none());
}

#[test]
fn editor_ui_and_menu() {
    let _ui = EditorUI::new();
    assert_ne!(MenuAction::Undo, MenuAction::Redo);
    assert_eq!(MenuAction::NoAction, MenuAction::NoAction);
}
