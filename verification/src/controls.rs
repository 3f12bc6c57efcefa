//! How the keys and the mouse steer the camera.

use crate::scalar::{Scalar, ONE_BITS};
use vstd::prelude::*;

verus! {

/// A key that moves the camera.
#[derive(Clone, Copy, Debug, PartialEq, Eq, Structural)]
pub enum Key {
    /// Ahead, along the camera's view.
    W,
    /// To the left.
    A,
    /// Back.
    S,
    /// To the right.
    D,
}

/// What the keys and the mouse currently ask of the camera: a motion along
/// its view (-1 ahead, 1 back), a motion to its side (-1 left, 1 right),
/// and whether the mouse turns it.
#[derive(Clone, Copy, Debug, PartialEq, Eq, Structural)]
pub struct Controls {
    pub forward: i8,
    pub to_side: i8,
    pub clicked: bool,
}

/// The number that a motion of -1, 0 or 1 along an axis stands for.
pub open spec fn axis(motion: i8) -> Scalar {
    if motion < 0 {
        Scalar::whole((-motion) as nat).negation()
    } else {
        Scalar::whole(motion as nat)
    }
}

impl Controls {
    /// How far the camera moves in one frame to its side and along its
    /// view: the motion asked along each axis, times the speed. Where both
    /// axes are asked, each is divided by the length of the two together,
    /// so that the camera is no faster askew than straight.
    pub open spec fn step(self, speed: Scalar) -> (Scalar, Scalar) {
        let forward = axis(self.forward);
        let to_side = axis(self.to_side);
        let size = forward.product(forward).sum(to_side.product(to_side)).root().larger(
            Scalar { bits: ONE_BITS },
        );
        (to_side.quotient(size).product(speed), forward.quotient(size).product(speed))
    }

    /// By which angles, up and down and left and right, the camera turns
    /// in one frame: the motion of the mouse times the speed while the
    /// mouse turns the camera, else nothing.
    pub open spec fn swing(self, cursor_top: Scalar, cursor_side: Scalar, speed: Scalar)
        -> Option<(Scalar, Scalar)> {
        if self.clicked {
            Some((cursor_top.product(speed), cursor_side.product(speed)))
        } else {
            None
        }
    }

    /// The controls after a key went down or came up. A key that goes down
    /// sets its motion, whatever was set before. A key that comes up stops
    /// the motion only if the motion is still its own.
    pub open spec fn after_key(self, key: Key, pressed: bool) -> Controls {
        match key {
            Key::W => Controls {
                forward: if pressed {
                    -1i8
                } else if self.forward < 0 {
                    0
                } else {
                    self.forward
                },
                ..self
            },
            Key::S => Controls {
                forward: if pressed {
                    1
                } else if self.forward > 0 {
                    0
                } else {
                    self.forward
                },
                ..self
            },
            Key::A => Controls {
                to_side: if pressed {
                    -1i8
                } else if self.to_side < 0 {
                    0
                } else {
                    self.to_side
                },
                ..self
            },
            Key::D => Controls {
                to_side: if pressed {
                    1
                } else if self.to_side > 0 {
                    0
                } else {
                    self.to_side
                },
                ..self
            },
        }
    }

    /// Nothing pressed.
    pub fn new() -> (controls: Self)
        ensures
            controls == (Controls { forward: 0, to_side: 0, clicked: false }),
    {
        Self { forward: 0, to_side: 0, clicked: false }
    }

    /// Takes note of a key that went down or came up.
    pub fn key(&mut self, key: Key, pressed: bool)
        ensures
            *final(self) == old(self).after_key(key, pressed),
    {
        match key {
            Key::W => {
                if pressed {
                    self.forward = -1;
                } else if self.forward < 0 {
                    self.forward = 0;
                }
            },
            Key::S => {
                if pressed {
                    self.forward = 1;
                } else if self.forward > 0 {
                    self.forward = 0;
                }
            },
            Key::A => {
                if pressed {
                    self.to_side = -1;
                } else if self.to_side < 0 {
                    self.to_side = 0;
                }
            },
            Key::D => {
                if pressed {
                    self.to_side = 1;
                } else if self.to_side > 0 {
                    self.to_side = 0;
                }
            },
        }
    }

    /// How far the camera moves in one frame to its side and along its
    /// view.
    pub fn motion(&self, speed: Scalar) -> (along: (Scalar, Scalar))
        ensures
            along == self.step(speed),
    {
        let forward = number_of(self.forward);
        let to_side = number_of(self.to_side);
        let size = forward.times(forward).plus(to_side.times(to_side)).square_root().max(
            Scalar { bits: ONE_BITS },
        );
        (to_side.over(size).times(speed), forward.over(size).times(speed))
    }

    /// By which angles the camera turns in one frame, if it turns.
    pub fn turning(&self, cursor_top: Scalar, cursor_side: Scalar, speed: Scalar) -> (angles:
        Option<(Scalar, Scalar)>)
        ensures
            angles == self.swing(cursor_top, cursor_side, speed),
    {
        if self.clicked {
            Some((cursor_top.times(speed), cursor_side.times(speed)))
        } else {
            None
        }
    }

    /// Takes note of a mouse button that went down or came up. Only the
    /// left button turns the camera.
    pub fn mouse_button(&mut self, left: bool, pressed: bool)
        ensures
            *final(self) == (Controls {
                clicked: if left {
                    pressed
                } else {
                    old(self).clicked
                },
                ..*old(self)
            }),
    {
        if left {
            self.clicked = pressed;
        }
    }
}

/// The number that a motion along an axis stands for.
fn number_of(motion: i8) -> (r: Scalar)
    ensures
        r == axis(motion),
{
    if motion < 0 {
        Scalar::from_u32((-(motion as i16)) as u32).negated()
    } else {
        Scalar::from_u32(motion as u32)
    }
}

} // verus!
