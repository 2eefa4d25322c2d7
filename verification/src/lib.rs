//! Core data structures of the Alander editor: asset storage, the editor's
//! undo/redo history, the scene graph, scene management and input state.

pub mod assets;
pub mod caps;
pub mod editor_command;
pub mod events;
pub mod gizmo;
pub mod gltf;
pub mod hierarchy;
pub mod input;
pub mod lights;
pub mod primitives;
pub mod resources;
pub mod scene;
pub mod scene_manager;
pub mod text;
pub mod ui;
