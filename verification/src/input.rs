//! Keyboard and mouse-button state, kept frame by frame.
//!
//! Keys and buttons are named by integer codes chosen by the windowing layer.

use crate::gizmo::GizmoMode;
use std::collections::{HashMap, HashSet};
use vstd::prelude::*;

verus! {

broadcast use vstd::std_specs::hash::group_hash_axioms;

/// Whether a key or button is down.
#[derive(Debug, Clone, Copy, PartialEq, Eq, Structural)]
pub enum ElementState {
    Pressed,
    Released,
}

/// The last reported state of every key and mouse button, and the keys
/// pressed or released during the current frame.
pub struct InputState {
    keyboard: HashMap<u32, ElementState>,
    just_pressed: HashSet<u32>,
    just_released: HashSet<u32>,
    mouse_buttons: HashMap<u32, ElementState>,
}

impl InputState {
    /// The last reported state of each key.
    pub closed spec fn keys(&self) -> Map<u32, ElementState> {
        self.keyboard@
    }

    /// The keys that went down during this frame.
    pub closed spec fn pressed_this_frame(&self) -> Set<u32> {
        self.just_pressed@
    }

    /// The keys that went up during this frame.
    pub closed spec fn released_this_frame(&self) -> Set<u32> {
        self.just_released@
    }

    /// The last reported state of each mouse button.
    pub closed spec fn buttons(&self) -> Map<u32, ElementState> {
        self.mouse_buttons@
    }

    /// No key or button has been reported.
    pub fn new() -> (s: Self)
        ensures
            s.keys() == Map::<u32, ElementState>::empty(),
            s.pressed_this_frame() == Set::<u32>::empty(),
            s.released_this_frame() == Set::<u32>::empty(),
            s.buttons() == Map::<u32, ElementState>::empty(),
    {
        InputState {
            keyboard: HashMap::new(),
            just_pressed: HashSet::new(),
            just_released: HashSet::new(),
            mouse_buttons: HashMap::new(),
        }
    }

    /// Whether the key is down.
    pub fn key_pressed(&self, key: u32) -> (r: bool)
        ensures
            r == (self.keys().contains_key(key) && self.keys()[key] == ElementState::Pressed),
    {
        match self.keyboard.get(&key) {
            Some(state) => *state == ElementState::Pressed,
            None => false,
        }
    }

    /// Whether the key went down during this frame.
    pub fn key_just_pressed(&self, key: u32) -> (r: bool)
        ensures
            r == self.pressed_this_frame().contains(key),
    {
        self.just_pressed.contains(&key)
    }

    /// Whether the mouse button is down.
    pub fn mouse_button_pressed(&self, button: u32) -> (r: bool)
        ensures
            r == (self.buttons().contains_key(button) && self.buttons()[button]
                == ElementState::Pressed),
    {
        match self.mouse_buttons.get(&button) {
            Some(state) => *state == ElementState::Pressed,
            None => false,
        }
    }

    /// Records a keyboard event: the key takes the new state; a press counts
    /// as this frame's press only when the key was not already down (a held
    /// key repeats its press events), and every release counts as this
    /// frame's release.
    pub fn handle_key(&mut self, key: u32, state: ElementState)
        ensures
            final(self).keys() == old(self).keys().insert(key, state),
            final(self).buttons() == old(self).buttons(),
            final(self).pressed_this_frame() == (if state == ElementState::Pressed && !(
            old(self).keys().contains_key(key) && old(self).keys()[key] == ElementState::Pressed) {
                old(self).pressed_this_frame().insert(key)
            } else {
                old(self).pressed_this_frame()
            }),
            final(self).released_this_frame() == (if state == ElementState::Released {
                old(self).released_this_frame().insert(key)
            } else {
                old(self).released_this_frame()
            }),
    {
        let previous = self.keyboard.insert(key, state);
        if state == ElementState::Pressed {
            let was_up = match previous {
                Some(s) => s == ElementState::Released,
                None => true,
            };
            if was_up {
                self.just_pressed.insert(key);
            }
        } else {
            self.just_released.insert(key);
        }
    }

    /// Records a mouse-button event.
    pub fn handle_mouse_button(&mut self, button: u32, state: ElementState)
        ensures
            final(self).buttons() == old(self).buttons().insert(button, state),
            final(self).keys() == old(self).keys(),
            final(self).pressed_this_frame() == old(self).pressed_this_frame(),
            final(self).released_this_frame() == old(self).released_this_frame(),
    {
        self.mouse_buttons.insert(button, state);
    }

    /// Forgets this frame's presses and releases (called at the end of each
    /// frame); the key and button states stay.
    pub fn clear_frame_state(&mut self)
        ensures
            final(self).pressed_this_frame() == Set::<u32>::empty(),
            final(self).released_this_frame() == Set::<u32>::empty(),
            final(self).keys() == old(self).keys(),
            final(self).buttons() == old(self).buttons(),
    {
        self.just_pressed.clear();
        self.just_released.clear();
    }
}

/// The codes of the keys that the editor's shortcuts use.
#[derive(Debug, Clone, Copy)]
pub struct KeyCodes {
    pub left_ctrl: u32,
    pub right_ctrl: u32,
    pub left_super: u32,
    pub right_super: u32,
    pub left_shift: u32,
    pub right_shift: u32,
    pub z: u32,
    pub d: u32,
    pub delete: u32,
    pub backspace: u32,
    pub escape: u32,
    pub w: u32,
    pub e: u32,
    pub r: u32,
}

/// The editor commands asked for by this frame's key presses.
#[derive(Debug, Clone, Copy, PartialEq, Eq, Structural)]
pub struct Shortcuts {
    pub undo: bool,
    pub redo: bool,
    pub delete: bool,
    pub duplicate: bool,
}

impl InputState {
    /// Whether the key is down, as a spec.
    pub open spec fn down(&self, key: u32) -> bool {
        self.keys().contains_key(key) && self.keys()[key] == ElementState::Pressed
    }

    /// The shortcuts of this frame: with Ctrl (or the system key) down, a
    /// fresh press of Z undoes, or redoes when Shift is down too, and a
    /// fresh press of D duplicates; a fresh press of Delete or Backspace
    /// deletes.
    pub fn editor_shortcuts(&self, keys: &KeyCodes) -> (s: Shortcuts)
        ensures
            ({
                let ctrl = self.down(keys.left_ctrl) || self.down(keys.right_ctrl) || self.down(
                    keys.left_super,
                ) || self.down(keys.right_super);
                let shift = self.down(keys.left_shift) || self.down(keys.right_shift);
                let z = self.pressed_this_frame().contains(keys.z);
                &&& s.undo == (ctrl && z && !shift)
                &&& s.redo == (ctrl && z && shift)
                &&& s.delete == (self.pressed_this_frame().contains(keys.delete)
                    || self.pressed_this_frame().contains(keys.backspace))
                &&& s.duplicate == (ctrl && self.pressed_this_frame().contains(keys.d))
            }),
    {
        let ctrl = self.key_pressed(keys.left_ctrl) || self.key_pressed(keys.right_ctrl)
            || self.key_pressed(keys.left_super) || self.key_pressed(keys.right_super);
        let shift = self.key_pressed(keys.left_shift) || self.key_pressed(keys.right_shift);
        let z = ctrl && self.key_just_pressed(keys.z);
        Shortcuts {
            undo: z && !shift,
            redo: z && shift,
            delete: self.key_just_pressed(keys.delete) || self.key_just_pressed(keys.backspace),
            duplicate: ctrl && self.key_just_pressed(keys.d),
        }
    }
}

/// The gizmo mode that a pressed key selects: W translate, E rotate,
/// R scale.
pub fn gizmo_mode_for_key(key: u32, keys: &KeyCodes) -> (m: Option<GizmoMode>)
    ensures
        m == (if key == keys.w {
            Some(GizmoMode::Translate)
        } else if key == keys.e {
            Some(GizmoMode::Rotate)
        } else if key == keys.r {
            Some(GizmoMode::Scale)
        } else {
            None
        }),
{
    if key == keys.w {
        Some(GizmoMode::Translate)
    } else if key == keys.e {
        Some(GizmoMode::Rotate)
    } else if key == keys.r {
        Some(GizmoMode::Scale)
    } else {
        None
    }
}

/// Whether a pressed key quits the editor (Escape).
pub fn is_quit_key(key: u32, keys: &KeyCodes) -> (q: bool)
    ensures
        q == (key == keys.escape),
{
    key == keys.escape
}

/// A key reported down is pressed, whatever it was before; a key reported
/// down while already down is not pressed again this frame.
pub proof fn law_press_then_query(before: InputState, after: InputState, key: u32)
    requires
        after.keys() == before.keys().insert(key, ElementState::Pressed),
        after.pressed_this_frame() == (if !(before.keys().contains_key(key) && before.keys()[key]
            == ElementState::Pressed) {
            before.pressed_this_frame().insert(key)
        } else {
            before.pressed_this_frame()
        }),
    ensures
        after.keys().contains_key(key) && after.keys()[key] == ElementState::Pressed,
        !(before.keys().contains_key(key) && before.keys()[key] == ElementState::Pressed)
            ==> after.pressed_this_frame().contains(key),
        (before.keys().contains_key(key) && before.keys()[key] == ElementState::Pressed)
            ==> after.pressed_this_frame() == before.pressed_this_frame(),
{
}

} // verus!
