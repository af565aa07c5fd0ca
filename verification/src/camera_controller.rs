//! The fly-through editor camera's held input: hold the right mouse button
//! to look, WASD to move, Q/E down and up, Shift to go faster. Turning input
//! into motion is floating point and belongs to the program.

use vstd::prelude::*;

verus! {

/// Which of the camera's movement keys are held.
#[derive(Clone, Copy, PartialEq, Eq, Structural, Debug, Default)]
pub struct Keys {
    pub forward: bool,
    pub back: bool,
    pub left: bool,
    pub right: bool,
    pub up: bool,
    pub down: bool,
    pub fast: bool,
}

impl Keys {
    /// Whether any key that moves the camera is held; `fast` alone does not.
    #[verifier::allow_in_spec]
    pub fn moving(&self) -> bool
        returns
            self.forward || self.back || self.left || self.right || self.up || self.down,
    {
        self.forward || self.back || self.left || self.right || self.up || self.down
    }
}

/// A key the camera listens to, by its place on the keyboard.
#[derive(Clone, Copy, PartialEq, Eq, Structural, Debug)]
pub enum MoveKey {
    W,
    S,
    A,
    D,
    E,
    Q,
    /// Either Shift.
    Shift,
    /// Any key the camera ignores.
    Other,
}

/// `keys` with the key that `key` drives held or released.
pub open spec fn with_key(keys: Keys, key: MoveKey, held: bool) -> Keys {
    match key {
        MoveKey::W => Keys { forward: held, ..keys },
        MoveKey::S => Keys { back: held, ..keys },
        MoveKey::A => Keys { left: held, ..keys },
        MoveKey::D => Keys { right: held, ..keys },
        MoveKey::E => Keys { up: held, ..keys },
        MoveKey::Q => Keys { down: held, ..keys },
        MoveKey::Shift => Keys { fast: held, ..keys },
        MoveKey::Other => keys,
    }
}

/// Each key drives one direction of travel and nothing else: W forward, S
/// back, A left, D right, E up, Q down, Shift the fast modifier; any other key
/// changes nothing.
pub proof fn lemma_each_key_drives_its_own_direction(keys: Keys, held: bool)
    ensures
        with_key(keys, MoveKey::W, held).forward == held,
        with_key(keys, MoveKey::S, held).back == held,
        with_key(keys, MoveKey::A, held).left == held,
        with_key(keys, MoveKey::D, held).right == held,
        with_key(keys, MoveKey::E, held).up == held,
        with_key(keys, MoveKey::Q, held).down == held,
        with_key(keys, MoveKey::Shift, held).fast == held,
        with_key(keys, MoveKey::Other, held) == keys,
        forall|k: MoveKey| k != MoveKey::W ==> #[trigger] with_key(keys, k, held).forward == keys.forward,
        forall|k: MoveKey| k != MoveKey::S ==> #[trigger] with_key(keys, k, held).back == keys.back,
        forall|k: MoveKey| k != MoveKey::A ==> #[trigger] with_key(keys, k, held).left == keys.left,
        forall|k: MoveKey| k != MoveKey::D ==> #[trigger] with_key(keys, k, held).right == keys.right,
        forall|k: MoveKey| k != MoveKey::E ==> #[trigger] with_key(keys, k, held).up == keys.up,
        forall|k: MoveKey| k != MoveKey::Q ==> #[trigger] with_key(keys, k, held).down == keys.down,
        forall|k: MoveKey| k != MoveKey::Shift ==> #[trigger] with_key(keys, k, held).fast == keys.fast,
{
}

/// Holding any of the six movement keys sets the camera moving; Shift and the
/// keys the camera ignores do not. Releasing a key leaves the camera moving
/// exactly when another movement key is still held.
pub proof fn lemma_held_key_moves(keys: Keys, key: MoveKey)
    ensures
        with_key(keys, key, true).moving() == (keys.moving() || (key != MoveKey::Shift && key != MoveKey::Other)),
        !with_key(keys, key, false).moving() <== !keys.moving(),
        with_key(keys, MoveKey::W, false).moving() == (keys.back || keys.left || keys.right || keys.up || keys.down),
        with_key(keys, MoveKey::D, false).moving() == (keys.forward || keys.back || keys.left || keys.up || keys.down),
{
}

/// What the camera holds between frames besides its angles and motion:
/// whether it is looking, and which keys are down.
#[derive(Clone, Copy, PartialEq, Eq, Structural, Debug, Default)]
pub struct HeldInput {
    pub looking: bool,
    pub keys: Keys,
}

impl HeldInput {
    /// The right mouse button. A press starts looking unless the interface
    /// wants the pointer; a release always stops, so look mode never sticks.
    pub fn mouse_right(&mut self, pressed: bool, ui_wants: bool)
        ensures
            final(self).looking == (pressed && !ui_wants),
            final(self).keys == old(self).keys,
    {
        if pressed {
            self.looking = !ui_wants;
        } else {
            self.looking = false;
        }
    }

    /// A movement key. A press the interface wants is ignored; a release is
    /// always honoured, so no key sticks down.
    pub fn key(&mut self, key: MoveKey, pressed: bool, ui_wants: bool)
        ensures
            final(self).looking == old(self).looking,
            final(self).keys == if pressed && ui_wants {
                old(self).keys
            } else {
                with_key(old(self).keys, key, pressed)
            },
    {
        if pressed && ui_wants {
            return;
        }
        match key {
            MoveKey::W => self.keys.forward = pressed,
            MoveKey::S => self.keys.back = pressed,
            MoveKey::A => self.keys.left = pressed,
            MoveKey::D => self.keys.right = pressed,
            MoveKey::E => self.keys.up = pressed,
            MoveKey::Q => self.keys.down = pressed,
            MoveKey::Shift => self.keys.fast = pressed,
            MoveKey::Other => {},
        }
    }

    /// Whether a frame moves the camera at all: an idle controller leaves
    /// edits made to the camera elsewhere untouched.
    pub fn active(&self, scrolled: bool) -> (r: bool)
        ensures
            r == (self.looking || self.keys.moving() || scrolled),
    {
        self.looking || self.keys.moving() || scrolled
    }
}

} // verus!
