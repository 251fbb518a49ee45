//! What can go wrong outside the simulation.

use vstd::prelude::*;
use vstd::string::StringExecFns;

verus! {

/// The errors of the game.
#[derive(Debug)]
pub enum GameError {
    /// The window could not be made.
    WindowError { reason: String },
}

impl GameError {
    /// The text of the error.
    pub open spec fn text(self) -> Seq<char> {
        match self {
            GameError::WindowError { reason } => "cannot create game window: "@ + reason@,
        }
    }

    /// The text of the error, as it is shown.
    pub fn message(&self) -> (message: String)
        ensures
            message@ == self.text(),
    {
        match self {
            GameError::WindowError { reason } => {
                let mut message = "cannot create game window: ".to_owned();
                message.append(reason.as_str());
                message
            },
        }
    }
}

} // verus!
