//! The game's eight controls, in a fixed order, and what a frame's key
//! presses and releases mean in each game mode. Control `k` is the `k`-th of:
//! hold, flip, rotate left, rotate right, hard drop, move left, soft drop,
//! move right.
use vstd::prelude::*;

use crate::classic::PlayerActions;
use crate::engine::{Action, Direction, Input};

verus! {

/// How many controls there are.
pub const CONTROLS: usize = 8;

/// The action of control `k`.
pub open spec fn control(k: int) -> Action {
    if k == 0 {
        Action::Hold
    } else if k == 1 {
        Action::Flip
    } else if k == 2 {
        Action::Rotate(Direction::Left)
    } else if k == 3 {
        Action::Rotate(Direction::Right)
    } else if k == 4 {
        Action::Harddrop
    } else if k == 5 {
        Action::Move(Direction::Left)
    } else if k == 6 {
        Action::Softdrop
    } else {
        Action::Move(Direction::Right)
    }
}

/// The inputs of the first `n` controls, in control order: for each, its
/// press, then its release.
pub open spec fn key_inputs(pressed: Seq<bool>, released: Seq<bool>, n: int) -> Seq<Input>
    decreases n,
{
    if n <= 0 {
        Seq::empty()
    } else {
        let k = n - 1;
        let begin = if pressed[k] {
            seq![Input::Begin(control(k))]
        } else {
            Seq::empty()
        };
        let end = if released[k] {
            seq![Input::End(control(k))]
        } else {
            Seq::empty()
        };
        key_inputs(pressed, released, k) + begin + end
    }
}

/// The action of control `k`.
pub fn control_action(k: usize) -> (r: Action)
    requires
        k < CONTROLS,
    ensures
        r == control(k as int),
{
    if k == 0 {
        Action::Hold
    } else if k == 1 {
        Action::Flip
    } else if k == 2 {
        Action::Rotate(Direction::Left)
    } else if k == 3 {
        Action::Rotate(Direction::Right)
    } else if k == 4 {
        Action::Harddrop
    } else if k == 5 {
        Action::Move(Direction::Left)
    } else if k == 6 {
        Action::Softdrop
    } else {
        Action::Move(Direction::Right)
    }
}

/// The inputs of one frame, from which controls' keys went down and which
/// came up since the last one.
pub fn inputs_from_keys(pressed: [bool; CONTROLS], released: [bool; CONTROLS]) -> (r: Vec<Input>)
    ensures
        r@ == key_inputs(pressed@, released@, CONTROLS as int),
{
    let mut r: Vec<Input> = Vec::new();
    let mut k: usize = 0;
    while k < CONTROLS
        invariant
            k <= CONTROLS,
            r@ == key_inputs(pressed@, released@, k as int),
        decreases CONTROLS - k,
    {
        let action = control_action(k);
        let ghost before = r@;
        if pressed[k] {
            r.push(Input::Begin(action));
        }
        let ghost mid = r@;
        if released[k] {
            r.push(Input::End(action));
        }
        proof {
            let begin = if pressed@[k as int] {
                seq![Input::Begin(control(k as int))]
            } else {
                Seq::empty()
            };
            let end = if released@[k as int] {
                seq![Input::End(control(k as int))]
            } else {
                Seq::empty()
            };
            assert(mid =~= before + begin);
            assert(r@ =~= before + begin + end);
        }
        k = k + 1;
    }
    r
}

impl PlayerActions {
    /// Records one frame's key presses and releases: each control's press, and
    /// the release of the sideways and soft-drop keys, sets its flag; flags
    /// already set stay set.
    pub fn record_keys(&mut self, pressed: [bool; CONTROLS], released: [bool; CONTROLS])
        ensures
            *final(self) == (PlayerActions {
                hold: old(self).hold || pressed@[0],
                flip: old(self).flip || pressed@[1],
                rotate_left: old(self).rotate_left || pressed@[2],
                rotate_right: old(self).rotate_right || pressed@[3],
                harddrop: old(self).harddrop || pressed@[4],
                begin_move_left: old(self).begin_move_left || pressed@[5],
                end_move_left: old(self).end_move_left || released@[5],
                begin_softdrop: old(self).begin_softdrop || pressed@[6],
                end_softdrop: old(self).end_softdrop || released@[6],
                begin_move_right: old(self).begin_move_right || pressed@[7],
                end_move_right: old(self).end_move_right || released@[7],
            }),
    {
        self.hold = self.hold || pressed[0];
        self.flip = self.flip || pressed[1];
        self.rotate_left = self.rotate_left || pressed[2];
        self.rotate_right = self.rotate_right || pressed[3];
        self.harddrop = self.harddrop || pressed[4];
        self.begin_move_left = self.begin_move_left || pressed[5];
        self.end_move_left = self.end_move_left || released[5];
        self.begin_softdrop = self.begin_softdrop || pressed[6];
        self.end_softdrop = self.end_softdrop || released[6];
        self.begin_move_right = self.begin_move_right || pressed[7];
        self.end_move_right = self.end_move_right || released[7];
    }
}

} // verus!
