//! The transform gizmo's interaction state: which axis the pointer is over
//! and which one is being dragged.

use vstd::prelude::*;

verus! {

/// What the gizmo edits.
#[derive(Debug, Clone, Copy, PartialEq, Eq, Structural)]
pub enum GizmoMode {
    Translate,
    Rotate,
    Scale,
}

/// A gizmo handle.
#[derive(Debug, Clone, Copy, PartialEq, Eq, Structural)]
pub enum GizmoAxis {
    X,
    Y,
    Z,
}

/// What the caller must do after a gizmo update.
#[derive(Debug, Clone, Copy, PartialEq, Eq, Structural)]
pub enum GizmoAction {
    /// Nothing.
    Idle,
    /// A drag along the axis starts: remember the entity's transform and
    /// where the pointer ray meets the handle.
    BeginDrag(GizmoAxis),
    /// The drag along the axis goes on: move the entity accordingly.
    Drag(GizmoAxis),
    /// The drag along the axis has ended (the button was released).
    EndDrag(GizmoAxis),
}

/// The gizmo's mode and pointer state.
#[derive(Debug, Clone, Copy)]
pub struct GizmoManager {
    pub mode: GizmoMode,
    pub hovered_axis: Option<GizmoAxis>,
    pub active_axis: Option<GizmoAxis>,
}

/// The gizmo's state and the caller's action after one frame of
/// interaction (see `GizmoManager::update`).
pub open spec fn gizmo_step(
    g: GizmoManager,
    has_selection: bool,
    has_transform: bool,
    pressed: bool,
    picked: Option<GizmoAxis>,
) -> (GizmoManager, GizmoAction) {
    if !has_selection {
        (GizmoManager { hovered_axis: None, active_axis: None, ..g }, GizmoAction::Idle)
    } else if !has_transform {
        (g, GizmoAction::Idle)
    } else {
        match g.active_axis {
            Some(a) => if pressed {
                (g, GizmoAction::Drag(a))
            } else {
                (GizmoManager { active_axis: None, ..g }, GizmoAction::EndDrag(a))
            },
            None => match picked {
                Some(axis) => if pressed {
                    (
                        GizmoManager { hovered_axis: picked, active_axis: Some(axis), ..g },
                        GizmoAction::BeginDrag(axis),
                    )
                } else {
                    (GizmoManager { hovered_axis: picked, ..g }, GizmoAction::Idle)
                },
                None => (GizmoManager { hovered_axis: None, ..g }, GizmoAction::Idle),
            },
        }
    }
}

impl GizmoManager {
    /// Translate mode, nothing hovered or dragged.
    pub fn new() -> (g: Self)
        ensures
            g.mode == GizmoMode::Translate,
            g.hovered_axis is None,
            g.active_axis is None,
    {
        GizmoManager { mode: GizmoMode::Translate, hovered_axis: None, active_axis: None }
    }

    /// One frame of interaction. `has_selection`: an entity is selected;
    /// `has_transform`: it has a transform; `pressed`: the left button is
    /// down; `picked`: the handle under the pointer ray, if any.
    ///
    /// Without a selection nothing is hovered or dragged; without a
    /// transform nothing changes. While dragging, releasing the button ends
    /// the drag and holding it continues it. Otherwise the picked handle is
    /// hovered, and pressing over it starts dragging it.
    pub fn update(&mut self, has_selection: bool, has_transform: bool, pressed: bool, picked: Option<
        GizmoAxis,
    >) -> (action: GizmoAction)
        ensures
            (*final(self), action) == gizmo_step(
                *old(self),
                has_selection,
                has_transform,
                pressed,
                picked,
            ),
    {
        if !has_selection {
            self.hovered_axis = None;
            self.active_axis = None;
            return GizmoAction::Idle;
        }
        if !has_transform {
            return GizmoAction::Idle;
        }
        match self.active_axis {
            Some(a) => {
                if !pressed {
                    self.active_axis = None;
                    GizmoAction::EndDrag(a)
                } else {
                    GizmoAction::Drag(a)
                }
            },
            None => {
                self.hovered_axis = picked;
                match picked {
                    Some(axis) => {
                        if pressed {
                            self.active_axis = Some(axis);
                            GizmoAction::BeginDrag(axis)
                        } else {
                            GizmoAction::Idle
                        }
                    },
                    None => GizmoAction::Idle,
                }
            },
        }
    }

    /// Whether a handle is drawn highlighted: it is hovered or dragged.
    pub fn is_highlighted(&self, axis: GizmoAxis) -> (r: bool)
        ensures
            r == (self.hovered_axis == Some(axis) || self.active_axis == Some(axis)),
    {
        self.hovered_axis == Some(axis) || self.active_axis == Some(axis)
    }
}

/// A drag always ends where it began: once pressing over a handle starts
/// dragging it, every frame with the button held continues dragging that
/// handle, and the first frame with the button released ends the drag on it
/// and leaves nothing dragged (as long as the entity stays selected with a
/// transform).
pub proof fn law_drag_ends_on_release(
    g: GizmoManager,
    axis: GizmoAxis,
    held: bool,
    picked_later: Option<GizmoAxis>,
)
    requires
        g.active_axis is None,
    ensures
        ({
            let (dragging, begin) = gizmo_step(g, true, true, true, Some(axis));
            let (later, act) = gizmo_step(dragging, true, true, held, picked_later);
            &&& begin == GizmoAction::BeginDrag(axis)
            &&& dragging.active_axis == Some(axis)
            &&& held ==> act == GizmoAction::Drag(axis) && later == dragging
            &&& !held ==> act == GizmoAction::EndDrag(axis) && later.active_axis is None
                && later.mode == g.mode
        }),
{
}

/// Hovering follows the pointer: with an entity selected that has a
/// transform and no drag going on, the hovered handle after a frame is the
/// handle under the pointer (none when the pointer is over none), so a
/// handle is highlighted exactly when it is picked or starts being dragged;
/// a drag starts exactly when the button is down over a handle. During a
/// drag, holding the button continues it unchanged and releasing it ends it
/// without touching the hover. No frame changes the mode.
pub proof fn law_hover_follows_pointer(
    g: GizmoManager,
    has_selection: bool,
    has_transform: bool,
    pressed: bool,
    picked: Option<GizmoAxis>,
)
    ensures
        ({
            let (after, action) = gizmo_step(g, has_selection, has_transform, pressed, picked);
            &&& after.mode == g.mode
            &&& has_selection && has_transform && g.active_axis is None ==> {
                &&& after.hovered_axis == picked
                &&& after.active_axis == (if pressed { picked } else { None })
                &&& forall|a: GizmoAxis|
                    (after.hovered_axis == Some(a) || after.active_axis == Some(a)) <==> picked
                        == Some(a)
                &&& action == (if pressed && picked is Some {
                    GizmoAction::BeginDrag(picked.unwrap())
                } else {
                    GizmoAction::Idle
                })
            }
            &&& has_selection && has_transform && g.active_axis is Some ==> {
                &&& pressed ==> after == g && action == GizmoAction::Drag(g.active_axis.unwrap())
                &&& !pressed ==> after.active_axis is None && after.hovered_axis == g.hovered_axis
                    && action == GizmoAction::EndDrag(g.active_axis.unwrap())
            }
            &&& !has_selection ==> after.hovered_axis is None && after.active_axis is None
                && action == GizmoAction::Idle
            &&& has_selection && !has_transform ==> after == g && action == GizmoAction::Idle
        }),
{
}

} // verus!
