use alander::gizmo::GizmoMode;
use alander::input::{gizmo_mode_for_key, is_quit_key, ElementState, InputState, KeyCodes, Shortcuts};
use alander::ui::{asset_kind, kind_of_lowercase, redo_menu_label, undo_menu_label, AssetKind};

fn codes() -> KeyCodes {
    KeyCodes {
        left_ctrl: 1,
        right_ctrl: 2,
        left_super: 3,
        right_super: 4,
        left_shift: 5,
        right_shift: 6,
        z: 7,
        d: 8,
        delete: 9,
        backspace: 10,
        escape: 11,
        w: 12,
        e: 13,
        r: 14,
    }
}

const NONE: Shortcuts = Shortcuts { undo: false, redo: false, delete: false, duplicate: false };

#[test]
fn ctrl_z_undoes_and_shift_redoes() {
    let k = codes();
    let mut input = InputState::new();
    input.handle_key(k.z, ElementState::Pressed);
    assert_eq!(input.editor_shortcuts(&k), NONE);
    input.clear_frame_state();
    input.handle_key(k.z, ElementState::Released);
    input.handle_key(k.left_ctrl, ElementState::Pressed);
    input.handle_key(k.z, ElementState::Pressed);
    assert_eq!(input.editor_shortcuts(&k), Shortcuts { undo: true, ..NONE });
    input.clear_frame_state();
    input.handle_key(k.z, ElementState::Released);
    input.handle_key(k.right_shift, ElementState::Pressed);
    input.handle_key(k.z, ElementState::Pressed);
    assert_eq!(input.editor_shortcuts(&k), Shortcuts { redo: true, ..NONE });
}

#[test]
fn delete_and_duplicate() {
    let k = codes();
    let mut input = InputState::new();
    input.handle_key(k.backspace, ElementState::Pressed);
    assert_eq!(input.editor_shortcuts(&k), Shortcuts { delete: true, ..NONE });
    input.clear_frame_state();
    input.handle_key(k.right_super, ElementState::Pressed);
    input.handle_key(k.d, ElementState::Pressed);
    assert_eq!(input.editor_shortcuts(&k), Shortcuts { duplicate: true, ..NONE });
}

#[test]
fn mode_and_quit_keys() {
    let k = codes();
    assert_eq!(gizmo_mode_for_key(12, &k), Some(GizmoMode::Translate));
    assert_eq!(gizmo_mode_for_key(13, &k), Some(GizmoMode::Rotate));
    assert_eq!(gizmo_mode_for_key(14, &k), Some(GizmoMode::Scale));
    assert_eq!(gizmo_mode_for_key(7, &k), None);
    assert!(is_quit_key(11, &k));
    assert!(!is_quit_key(12, &k));
}

#[test]
fn menu_labels() {
    assert_eq!(undo_menu_label(Some("修改变换")), "撤销 (修改变换) (Ctrl+Z)");
    assert_eq!(undo_menu_label(None), "撤销 (Ctrl+Z)");
    assert_eq!(redo_menu_label(Some("删除实体")), "重做 (删除实体) (Ctrl+Shift+Z)");
    assert_eq!(redo_menu_label(None), "重做 (Ctrl+Shift+Z)");
}

#[test]
fn asset_kinds() {
    assert_eq!(asset_kind("png"), AssetKind::Image);
    assert_eq!(asset_kind("JPEG"), AssetKind::Image);
    assert_eq!(asset_kind("Hdr"), AssetKind::Image);
    assert_eq!(asset_kind("GLB"), AssetKind::Model);
    assert_eq!(asset_kind("gltf"), AssetKind::Model);
    assert_eq!(asset_kind("json"), AssetKind::SceneData);
    assert_eq!(asset_kind("txt"), AssetKind::Unknown);
    assert_eq!(asset_kind(""), AssetKind::Unknown);
}

#[test]
fn lowercase_extensions_classified_exactly() {
    assert_eq!(kind_of_lowercase("jpg"), AssetKind::Image);
    assert_eq!(kind_of_lowercase("glb"), AssetKind::Model);
    assert_eq!(kind_of_lowercase("GLB"), AssetKind::Unknown);
    assert_eq!(kind_of_lowercase("json"), AssetKind::SceneData);
    assert_eq!(kind_of_lowercase("gl"), AssetKind::Unknown);
}
