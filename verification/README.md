# Alander

The core of the Alander 3D editor, verified with Verus.

- `src/` — the verified library: asset storage (`assets`), the undo/redo
  history (`editor_command`), the scene graph with its save order and
  relinking by identifier (`hierarchy`), open scenes (`scene_manager`),
  keyboard state and editor shortcuts (`input`), the transform gizmo's
  interaction state (`gizmo`), glTF document structure (`gltf`), texture
  choice (`resources`), the light list (`lights`), built-in geometry
  (`primitives`), scene component data (`scene`), menu labels and asset
  kinds (`ui`), the HDR format choice (`caps`) and string helpers (`text`). Geometry and material values are
  fixed-point thousandths.
- `app/` — the editor around it, without a window: ECS components with their
  serde forms, floating-point transforms, animation and gizmo geometry, glTF
  file import, the editor's commands, and a command-line driver that opens a
  scene or model, edits it through the undo history and saves it as JSON.
- `tests/` — tests of the library.
