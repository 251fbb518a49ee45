//! The components that say where a thing is and what shape it has, and the
//! modes of the camera.

use vstd::prelude::*;
use crate::scalar::Scalar;

verus! {

/// Where an entity is: a room in the world, an object in its room.
#[derive(Clone, Copy, Debug, PartialEq, Eq, Structural)]
pub struct Position {
    pub x: Scalar,
    pub y: Scalar,
}

/// The extent of a room or of a piece of terrain.
#[derive(Clone, Copy, Debug, PartialEq, Eq, Structural)]
pub struct Size {
    pub width: Scalar,
    pub height: Scalar,
}

/// The kinds of round objects.
#[derive(Clone, Copy, Debug, PartialEq, Eq, Structural)]
pub enum ShapeClass {
    Ball,
    ChainLink,
}

/// A round object of the given radius.
#[derive(Clone, Copy, Debug, PartialEq, Eq, Structural)]
pub struct Shape {
    pub size: Scalar,
    pub class: ShapeClass,
}

/// The stages of the bubble that is shown during a phase shift.
#[derive(Clone, Copy, Debug, PartialEq, Eq, Structural)]
pub enum PhaseSphereState {
    /// The bubble is forming.
    Forming,
    /// The bubble was entered and expands to the edges of the screen.
    Expanding,
    /// The bubble was cancelled and retracts.
    Retracting,
}

/// The modes of the camera.
#[derive(Clone, Copy, Debug, PartialEq, Eq, Structural)]
pub enum CameraMode {
    /// The camera follows the player.
    Normal,
    /// The camera stands still, zoomed out.
    EditorMode,
}

impl CameraMode {
    /// The other mode.
    pub open spec fn toggled(self) -> CameraMode {
        match self {
            CameraMode::Normal => CameraMode::EditorMode,
            CameraMode::EditorMode => CameraMode::Normal,
        }
    }

    /// The mode that follows this one when the modes are stepped through.
    pub fn next_mode(&self) -> (next: Self)
        ensures
            next == self.toggled(),
            next != *self,
            next.toggled() == *self,
    {
        match *self {
            CameraMode::Normal => CameraMode::EditorMode,
            CameraMode::EditorMode => CameraMode::Normal,
        }
    }
}

} // verus!
