//! Global hotkeys: Right Shift mutes, Right Control deafens.
use vstd::prelude::*;

verus! {

/// What a hotkey asks for.
#[derive(Clone, Copy, Debug, PartialEq, Eq, Structural)]
pub enum Action {
    ToggleMute,
    ToggleDeafen,
}

/// Which of the keys were down when last looked at.
#[derive(Clone, Copy, Debug, PartialEq, Eq, Structural)]
pub struct KeyEdges {
    pub right_shift_down: bool,
    pub right_control_down: bool,
}

impl Default for KeyEdges {
    fn default() -> (k: Self)
        ensures
            k == (KeyEdges { right_shift_down: false, right_control_down: false }),
    {
        KeyEdges { right_shift_down: false, right_control_down: false }
    }
}

impl KeyEdges {
    /// Looks at the keys: each press gives its action once, holding a key gives nothing.
    pub fn update(&mut self, right_shift_down: bool, right_control_down: bool) -> (actions: [Option<
        Action,
    >; 2])
        ensures
            *final(self) == (KeyEdges { right_shift_down, right_control_down }),
            actions@[0] == if right_shift_down && !old(self).right_shift_down {
                Some(Action::ToggleMute)
            } else {
                None
            },
            actions@[1] == if right_control_down && !old(self).right_control_down {
                Some(Action::ToggleDeafen)
            } else {
                None
            },
    {
        let mute: Option<Action> = if right_shift_down && !self.right_shift_down {
            Some(Action::ToggleMute)
        } else {
            None
        };
        let deafen: Option<Action> = if right_control_down && !self.right_control_down {
            Some(Action::ToggleDeafen)
        } else {
            None
        };
        self.right_shift_down = right_shift_down;
        self.right_control_down = right_control_down;
        [mute, deafen]
    }
}

} // verus!
