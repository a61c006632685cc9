//! What a client sends each tick.

use vstd::prelude::*;
use crate::vec2::{lemma_scaled_direction, Vec2, UNIT};

verus! {

/// The port that a server listens on unless told otherwise.
pub const SERVER_PORT: u16 = 5555;

/// Length of a tick of the network clock, in milliseconds.
pub const TICK_MILLIS: u64 = 16;

/// Square of the deflection below which a stick counts as at rest: a fifth
/// of full deflection.
pub const DEADZONE_SQ: i64 = 40_000;

/// What a player holds down: four direction keys and, where there is a
/// gamepad, its left stick, in thousandths of full deflection.
#[derive(Clone, Copy, Debug, PartialEq, Eq, Structural)]
pub struct Controls {
    pub up: bool,
    pub down: bool,
    pub left: bool,
    pub right: bool,
    pub stick: Option<Vec2>,
}

/// The contribution of a pair of opposed keys to one axis.
pub open spec fn key_axis(positive: bool, negative: bool) -> int {
    (if positive {
        UNIT as int
    } else {
        0
    }) - (if negative {
        UNIT as int
    } else {
        0
    })
}

impl Controls {
    /// The stick, if there is one, is within full deflection on both axes.
    pub open spec fn valid(self) -> bool {
        self.stick matches Some(stick) ==> stick.within(UNIT as int)
    }

    /// The direction before its length is limited: the stick's if it is
    /// out of the dead zone, else the keys'.
    pub open spec fn raw_direction(self) -> Vec2 {
        let keys = Vec2 {
            x: key_axis(self.right, self.left) as i64,
            y: key_axis(self.up, self.down) as i64,
        };
        match self.stick {
            Some(stick) => if stick.norm_sq() > DEADZONE_SQ {
                stick
            } else {
                keys
            },
            None => keys,
        }
    }

    /// The direction that the controls ask for. A direction longer than
    /// full deflection is cut back to it, so that steering diagonally is no
    /// faster than steering along an axis.
    pub open spec fn direction(self) -> Vec2 {
        let raw = self.raw_direction();
        if raw.norm_sq() > UNIT * UNIT {
            raw.scaled_to(UNIT as int)
        } else {
            raw
        }
    }
}

/// Why an input sample was turned away.
#[derive(Clone, Copy, Debug, PartialEq, Eq, Structural)]
pub enum InputError {
    /// A component of the direction lies outside `[-UNIT, UNIT]`.
    InvalidInput,
}

/// The direction a player steers in. Each component runs from `-UNIT`
/// (full deflection one way) to `UNIT`; the zero vector means no input.
#[derive(Clone, Copy, Debug, PartialEq, Eq, Structural)]
pub struct PlayerInput {
    pub direction: Vec2,
}

impl PlayerInput {
    pub open spec fn valid(self) -> bool {
        self.direction.within(UNIT as int)
    }

    /// No steering.
    pub open spec fn idle() -> PlayerInput {
        PlayerInput { direction: Vec2 { x: 0, y: 0 } }
    }

    /// Accepts a direction whose components are in range and reports any
    /// other as `InvalidInput`.
    pub fn new(direction: Vec2) -> (r: Result<PlayerInput, InputError>)
        ensures
            (PlayerInput { direction }).valid() ==> r == Ok::<PlayerInput, InputError>(
                PlayerInput { direction },
            ),
            !(PlayerInput { direction }).valid() ==> r == Err::<PlayerInput, InputError>(
                InputError::InvalidInput,
            ),
    {
        let input = PlayerInput { direction };
        if input.is_valid() {
            Ok(input)
        } else {
            Err(InputError::InvalidInput)
        }
    }

    pub fn is_valid(&self) -> (b: bool)
        ensures
            b == self.valid(),
    {
        -UNIT <= self.direction.x && self.direction.x <= UNIT && -UNIT <= self.direction.y
            && self.direction.y <= UNIT
    }
}

/// Turns what a player holds down into the input for the tick. A stick
/// reported beyond full deflection is turned away as `InvalidInput`.
pub fn read_controls(controls: &Controls) -> (r: Result<PlayerInput, InputError>)
    ensures
        controls.valid() ==> r == Ok::<PlayerInput, InputError>(
            PlayerInput { direction: controls.direction() },
        ) && r->Ok_0.valid(),
        !controls.valid() ==> r == Err::<PlayerInput, InputError>(InputError::InvalidInput),
{
    let mut dir = Vec2::zero();
    if controls.up {
        dir.y = dir.y + UNIT;
    }
    if controls.down {
        dir.y = dir.y - UNIT;
    }
    if controls.left {
        dir.x = dir.x - UNIT;
    }
    if controls.right {
        dir.x = dir.x + UNIT;
    }
    match controls.stick {
        Some(stick) => {
            if !(PlayerInput { direction: stick }).is_valid() {
                return Err(InputError::InvalidInput);
            }
            if stick.length_squared() > DEADZONE_SQ {
                dir = stick;
            }
        },
        None => {},
    }
    proof {
        lemma_scaled_direction(dir, UNIT as int);
    }
    if dir.length_squared() > UNIT * UNIT {
        dir = dir.scale_to_length(UNIT);
    }
    Ok(PlayerInput { direction: dir })
}

impl Default for PlayerInput {
    fn default() -> (input: PlayerInput)
        ensures
            input == PlayerInput::idle(),
            input.valid(),
    {
        PlayerInput { direction: Vec2::zero() }
    }
}

} // verus!
