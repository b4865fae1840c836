//! From keys to motion: what the player does at one fixed step.

use vstd::prelude::*;

verus! {

/// The speed of a moving player, in world units per second.
pub const PLAYER_SPEED: u32 = 100;

/// The keys that steer the game, as they stand at one fixed step. The eight
/// direction keys are level-triggered (held or not); `attack` and `respawn`
/// are edge-triggered (they went down since the last step).
#[derive(Clone, Copy, Debug, PartialEq, Eq, Structural, Default)]
pub struct Keys {
    pub key_w: bool,
    pub arrow_up: bool,
    pub key_a: bool,
    pub arrow_left: bool,
    pub key_s: bool,
    pub arrow_down: bool,
    pub key_d: bool,
    pub arrow_right: bool,
    /// The attack key, F, has just gone down.
    pub attack: bool,
    /// The respawn key, R, has just gone down.
    pub respawn: bool,
}

/// The pull along one axis: towards the negative side, none, or towards the
/// positive side.
#[derive(Clone, Copy, Debug, PartialEq, Eq, Structural)]
pub enum Axis {
    Negative,
    Zero,
    Positive,
}

/// The movement that the held keys ask for, before it is brought to unit
/// length: one pull along x (right is positive) and one along y (up is
/// positive).
#[derive(Clone, Copy, Debug, PartialEq, Eq, Structural)]
pub struct Movement {
    pub x: Axis,
    pub y: Axis,
}

/// What the controller decides at one step.
#[derive(Clone, Copy, Debug, PartialEq, Eq, Structural)]
pub enum Decision {
    /// The respawn key went down: ask for a new enemy, and leave the player
    /// alone for this step.
    Respawn,
    /// There is not exactly one player: nothing is steered.
    Idle,
    /// Steer the one player.
    Steer {
        /// The player.
        player: u64,
        /// Where the player moves; its velocity is this vector at unit length
        /// times `PLAYER_SPEED`.
        movement: Movement,
        /// The player's new orientation in degrees, where it changes.
        facing: Option<u16>,
        /// Whether the player swings: an attack volume is to be spawned as its
        /// child.
        attack: bool,
    },
}

impl Axis {
    /// The pull as a number: -1, 0 or 1.
    pub open spec fn spec_value(self) -> int {
        match self {
            Axis::Negative => -1,
            Axis::Zero => 0,
            Axis::Positive => 1,
        }
    }

    /// The pull that is left when the key sets of the two opposite directions
    /// are held or not: one alone pulls its way, both or none cancel.
    pub open spec fn spec_between(positive: bool, negative: bool) -> Axis {
        if positive && !negative {
            Axis::Positive
        } else if negative && !positive {
            Axis::Negative
        } else {
            Axis::Zero
        }
    }

    /// The pull as a number: -1, 0 or 1.
    pub fn value(self) -> (v: i8)
        ensures
            v == self.spec_value(),
    {
        match self {
            Axis::Negative => -1,
            Axis::Zero => 0,
            Axis::Positive => 1,
        }
    }

    /// The pull along an axis whose positive direction is held iff `positive`
    /// and whose negative direction is held iff `negative`.
    pub fn between(positive: bool, negative: bool) -> (axis: Axis)
        ensures
            axis == Axis::spec_between(positive, negative),
            axis.spec_value() == (if positive { 1int } else { 0 }) - (if negative { 1int } else { 0 }),
    {
        if positive && !negative {
            Axis::Positive
        } else if negative && !positive {
            Axis::Negative
        } else {
            Axis::Zero
        }
    }
}

impl Keys {
    /// Up is asked for: W or the up arrow is held.
    pub open spec fn up(self) -> bool {
        self.key_w || self.arrow_up
    }

    /// Left is asked for: A or the left arrow is held.
    pub open spec fn left(self) -> bool {
        self.key_a || self.arrow_left
    }

    /// Down is asked for: S or the down arrow is held.
    pub open spec fn down(self) -> bool {
        self.key_s || self.arrow_down
    }

    /// Right is asked for: D or the right arrow is held.
    pub open spec fn right(self) -> bool {
        self.key_d || self.arrow_right
    }

    /// Some direction key is held.
    pub open spec fn spec_any_direction(self) -> bool {
        self.up() || self.left() || self.down() || self.right()
    }

    /// Some direction key is held, and every direction that is asked for is
    /// cancelled by its opposite.
    pub open spec fn cancelled(self) -> bool {
        self.spec_any_direction() && self.up() == self.down() && self.left() == self.right()
    }

    /// The movement that the held direction keys ask for.
    pub open spec fn spec_movement(self) -> Movement {
        Movement {
            x: Axis::spec_between(self.right(), self.left()),
            y: Axis::spec_between(self.up(), self.down()),
        }
    }

    /// Whether some direction key is held.
    #[verifier::when_used_as_spec(spec_any_direction)]
    pub fn any_direction(self) -> (yes: bool)
        ensures
            yes == self.spec_any_direction(),
    {
        self.key_w || self.arrow_up || self.key_a || self.arrow_left || self.key_s
            || self.arrow_down || self.key_d || self.arrow_right
    }

    /// The movement that the held direction keys ask for: each direction adds
    /// one unit on its axis, whichever of its two keys is held, and opposite
    /// directions cancel.
    #[verifier::when_used_as_spec(spec_movement)]
    pub fn movement(self) -> (m: Movement)
        ensures
            m == self.spec_movement(),
            m.x.spec_value() == (if self.right() { 1int } else { 0 }) - (if self.left() { 1int } else { 0 }),
            m.y.spec_value() == (if self.up() { 1int } else { 0 }) - (if self.down() { 1int } else { 0 }),
    {
        let up = self.key_w || self.arrow_up;
        let left = self.key_a || self.arrow_left;
        let down = self.key_s || self.arrow_down;
        let right = self.key_d || self.arrow_right;
        Movement { x: Axis::between(right, left), y: Axis::between(up, down) }
    }
}

impl Movement {
    /// No pull on either axis.
    pub open spec fn spec_is_still(self) -> bool {
        self.x == Axis::Zero && self.y == Axis::Zero
    }

    /// The squared length of the vector: 0, 1 or 2.
    pub open spec fn spec_length_squared(self) -> int {
        self.x.spec_value() * self.x.spec_value() + self.y.spec_value() * self.y.spec_value()
    }

    /// The squared length that the vector is divided by to bring it to unit
    /// length: its own, or 1 for the zero vector, which stays as it is.
    pub open spec fn spec_scale_squared(self) -> int {
        if self.spec_is_still() {
            1
        } else {
            self.spec_length_squared()
        }
    }

    /// The angle in degrees, between 0 and 180, between straight up and this
    /// vector; none for the zero vector.
    pub open spec fn angle_from_up(self) -> Option<int> {
        match (self.x, self.y) {
            (Axis::Zero, Axis::Zero) => None,
            (Axis::Zero, Axis::Positive) => Some(0),
            (_, Axis::Positive) => Some(45),
            (_, Axis::Zero) => Some(90),
            (Axis::Zero, Axis::Negative) => Some(180),
            (_, Axis::Negative) => Some(135),
        }
    }

    /// The orientation, in degrees counterclockwise from straight up, of a
    /// player that moves along this vector; none for a player that stands
    /// still. It is the angle between up and the vector, taken the long way
    /// round (360 minus the angle) where the vector points to the right.
    pub open spec fn spec_facing(self) -> Option<u16> {
        match self.angle_from_up() {
            None => None,
            Some(angle) => Some(
                (if self.x == Axis::Positive {
                    360 - angle
                } else {
                    angle
                }) as u16,
            ),
        }
    }

    /// Whether the vector is zero.
    #[verifier::when_used_as_spec(spec_is_still)]
    pub fn is_still(self) -> (still: bool)
        ensures
            still == self.spec_is_still(),
    {
        self.x == Axis::Zero && self.y == Axis::Zero
    }

    /// The squared length of the vector.
    pub fn length_squared(self) -> (n: u8)
        ensures
            n == self.spec_length_squared(),
            n <= 2,
            n == 0 <==> self.spec_is_still(),
    {
        let x: i8 = self.x.value();
        let y: i8 = self.y.value();
        let n: i8 = x * x + y * y;
        n as u8
    }

    /// The squared length to divide by: the player's velocity is the vector
    /// divided by the square root of this number, times `PLAYER_SPEED`. So a
    /// moving player has exactly that speed, in the eight directions alike.
    pub fn scale_squared(self) -> (n: u8)
        ensures
            n == self.spec_scale_squared(),
            1 <= n <= 2,
            self.spec_length_squared() <= n,
            self.spec_length_squared() == n <==> !self.spec_is_still(),
    {
        if self.is_still() {
            1
        } else {
            self.length_squared()
        }
    }

    /// The orientation of a player that moves along this vector, in degrees
    /// counterclockwise from straight up; none where the vector is zero and the
    /// orientation stays as it is.
    #[verifier::when_used_as_spec(spec_facing)]
    pub fn facing(self) -> (degrees: Option<u16>)
        ensures
            degrees == self.spec_facing(),
    {
        match (self.x, self.y) {
            (Axis::Zero, Axis::Zero) => None,
            (Axis::Zero, Axis::Positive) => Some(0),
            (Axis::Negative, Axis::Positive) => Some(45),
            (Axis::Negative, Axis::Zero) => Some(90),
            (Axis::Negative, Axis::Negative) => Some(135),
            (Axis::Zero, Axis::Negative) => Some(180),
            (Axis::Positive, Axis::Negative) => Some(225),
            (Axis::Positive, Axis::Zero) => Some(270),
            (Axis::Positive, Axis::Positive) => Some(315),
        }
    }
}

/// What the controller decides from the players that exist and the keys.
pub open spec fn decide(players: Seq<u64>, keys: Keys) -> Decision {
    if keys.respawn {
        Decision::Respawn
    } else if players.len() != 1 {
        Decision::Idle
    } else {
        Decision::Steer {
            player: players[0],
            movement: keys.spec_movement(),
            facing: keys.spec_movement().spec_facing(),
            attack: keys.attack,
        }
    }
}

/// One step of the controller. The respawn key wins over everything else;
/// without exactly one player nothing is steered; otherwise the one player
/// moves as the direction keys ask, turns to face the movement where there is
/// one, and swings where the attack key has just gone down.
pub fn player_controller(players: &Vec<u64>, keys: &Keys) -> (decision: Decision)
    ensures
        decision == decide(players@, *keys),
{
    if keys.respawn {
        return Decision::Respawn;
    }
    if players.len() != 1 {
        return Decision::Idle;
    }
    let movement = keys.movement();
    Decision::Steer { player: players[0], movement, facing: movement.facing(), attack: keys.attack }
}

/// Brought to unit length, a movement is never longer than 1: its squared
/// length is at most the squared length that it is divided by, and equal to it
/// exactly for a player that moves.
pub proof fn lemma_movement_at_most_unit(keys: Keys)
    ensures
        keys.spec_movement().spec_scale_squared() >= 1,
        keys.spec_movement().spec_length_squared() <= keys.spec_movement().spec_scale_squared(),
        keys.spec_movement().spec_length_squared() == keys.spec_movement().spec_scale_squared()
            <==> !keys.spec_movement().spec_is_still(),
        keys.spec_movement().spec_is_still() ==> keys.spec_movement().spec_length_squared() == 0,
{
}

/// The movement is zero exactly when no direction key is held, except where
/// the held keys cancel each other.
pub proof fn lemma_still_iff_no_key(keys: Keys)
    requires
        !keys.cancelled(),
    ensures
        keys.spec_movement().spec_is_still() <==> !keys.spec_any_direction(),
{
}

/// Opposite directions cancel: an axis is pulled exactly when one of its two
/// directions is asked for and the other is not.
pub proof fn lemma_opposite_keys_cancel(keys: Keys)
    ensures
        keys.spec_movement().x == Axis::Zero <==> keys.left() == keys.right(),
        keys.spec_movement().y == Axis::Zero <==> keys.up() == keys.down(),
        keys.spec_movement().spec_is_still() <==> (keys.up() == keys.down() && keys.left()
            == keys.right()),
{
}

} // verus!
