//! What the game puts into the scene: the camera, the player, the enemies and
//! the attack volumes, each as a description of the entity to create.

use vstd::prelude::*;
use crate::decay::{Decay, ATTACK_DECAY};
use crate::layer::AvianLayers;

verus! {

/// What an entity is in the game. An entity has one role.
#[derive(Clone, Copy, Debug, PartialEq, Eq, Structural)]
pub enum Role {
    /// The camera that the scene is drawn through.
    Camera,
    /// The body that the keys steer.
    Player,
    /// A body that attacks can destroy.
    Enemy,
    /// A vulnerability volume: where its owner can be hit.
    Hurtbox,
    /// An attack volume: where a swing hits.
    Hitbox,
}

/// The outline of a collision volume, in world units.
#[derive(Clone, Copy, Debug, PartialEq, Eq, Structural)]
pub enum Shape {
    Circle { radius: u16 },
    Rectangle { width: u16, height: u16 },
}

/// How the physics engine moves a body.
#[derive(Clone, Copy, Debug, PartialEq, Eq, Structural)]
pub enum Body {
    /// Moved by forces and by its velocity.
    Dynamic,
    /// Moved by its velocity alone; nothing pushes it.
    Kinematic,
}

/// A collision volume.
#[derive(Clone, Copy, Debug, PartialEq, Eq, Structural)]
pub struct Volume {
    pub shape: Shape,
    /// The layer that the volume sits on; it looks for the counterpart of it.
    pub layer: AvianLayers,
    /// A sensor reports overlaps and pushes nothing.
    pub sensor: bool,
}

/// The description of one entity to create.
#[derive(Clone, Copy, Debug, PartialEq, Eq, Structural)]
pub struct Blueprint {
    pub role: Role,
    /// The position, relative to the owner where there is one.
    pub x: i32,
    pub y: i32,
    /// The orientation, in degrees counterclockwise.
    pub turn: u16,
    pub body: Option<Body>,
    /// The physics engine may not turn the body.
    pub rotation_locked: bool,
    pub volume: Option<Volume>,
    pub decay: Option<Decay>,
    /// The interface is drawn through this camera.
    pub draws_interface: bool,
}

/// A body together with the vulnerability volume that it owns.
#[derive(Clone, Copy, Debug, PartialEq, Eq, Structural)]
pub struct Family {
    pub body: Blueprint,
    pub hurtbox: Blueprint,
}

/// The side of the square volume of a player or an enemy.
pub const BODY_SIDE: u16 = 32;

/// The radius of a vulnerability volume.
pub const HURTBOX_RADIUS: u16 = 4;

/// The camera: no body, no volume; the interface is drawn through it.
pub open spec fn camera() -> Blueprint {
    Blueprint {
        role: Role::Camera,
        x: 0,
        y: 0,
        turn: 0,
        body: None,
        rotation_locked: false,
        volume: None,
        decay: None,
        draws_interface: true,
    }
}

/// A vulnerability volume at (`x`, `y`) from its owner: a small circular
/// sensor on the `Hurt` layer.
pub open spec fn vulnerable_at(x: i32, y: i32) -> Blueprint {
    Blueprint {
        role: Role::Hurtbox,
        x,
        y,
        turn: 0,
        body: None,
        rotation_locked: false,
        volume: Some(
            Volume {
                shape: Shape::Circle { radius: HURTBOX_RADIUS },
                layer: AvianLayers::Hurt,
                sensor: true,
            },
        ),
        decay: None,
        draws_interface: false,
    }
}

/// The solid square that a player or an enemy collides with.
pub open spec fn solid_square() -> Volume {
    Volume {
        shape: Shape::Rectangle { width: BODY_SIDE, height: BODY_SIDE },
        layer: AvianLayers::Physics,
        sensor: false,
    }
}

/// The player: a dynamic body that the physics engine may not turn, at the
/// origin and turned by 45 degrees, with its vulnerability volume 12 units
/// ahead.
pub open spec fn player() -> Family {
    Family {
        body: Blueprint {
            role: Role::Player,
            x: 0,
            y: 0,
            turn: 45,
            body: Some(Body::Dynamic),
            rotation_locked: true,
            volume: Some(solid_square()),
            decay: None,
            draws_interface: false,
        },
        hurtbox: vulnerable_at(0, 12),
    }
}

/// An enemy: a kinematic body 128 units up from the origin, with its
/// vulnerability volume at its centre.
pub open spec fn enemy() -> Family {
    Family {
        body: Blueprint {
            role: Role::Enemy,
            x: 0,
            y: 128,
            turn: 0,
            body: Some(Body::Kinematic),
            rotation_locked: false,
            volume: Some(solid_square()),
            decay: None,
            draws_interface: false,
        },
        hurtbox: vulnerable_at(0, 0),
    }
}

/// An attack volume: a thin sensor on the `Hit` layer, 32 units ahead of the
/// player that owns it, which lasts `ATTACK_DECAY` steps.
pub open spec fn attack() -> Blueprint {
    Blueprint {
        role: Role::Hitbox,
        x: 0,
        y: 32,
        turn: 0,
        body: None,
        rotation_locked: false,
        volume: Some(
            Volume {
                shape: Shape::Rectangle { width: 8, height: 32 },
                layer: AvianLayers::Hit,
                sensor: true,
            },
        ),
        decay: Some(Decay { counter: ATTACK_DECAY }),
        draws_interface: false,
    }
}

/// The vulnerability volume of a body, `x` and `y` away from it.
fn hurtbox_at(x: i32, y: i32) -> (blueprint: Blueprint)
    ensures
        blueprint == vulnerable_at(x, y),
{
    Blueprint {
        role: Role::Hurtbox,
        x,
        y,
        turn: 0,
        body: None,
        rotation_locked: false,
        volume: Some(
            Volume {
                shape: Shape::Circle { radius: HURTBOX_RADIUS },
                layer: AvianLayers::Hurt,
                sensor: true,
            },
        ),
        decay: None,
        draws_interface: false,
    }
}

/// The camera to create at startup.
pub fn spawn_camera() -> (blueprint: Blueprint)
    ensures
        blueprint == camera(),
{
    Blueprint {
        role: Role::Camera,
        x: 0,
        y: 0,
        turn: 0,
        body: None,
        rotation_locked: false,
        volume: None,
        decay: None,
        draws_interface: true,
    }
}

/// The player to create at startup, with its vulnerability volume.
pub fn spawn_player() -> (family: Family)
    ensures
        family == player(),
{
    Family {
        body: Blueprint {
            role: Role::Player,
            x: 0,
            y: 0,
            turn: 45,
            body: Some(Body::Dynamic),
            rotation_locked: true,
            volume: Some(
                Volume {
                    shape: Shape::Rectangle { width: BODY_SIDE, height: BODY_SIDE },
                    layer: AvianLayers::Physics,
                    sensor: false,
                },
            ),
            decay: None,
            draws_interface: false,
        },
        hurtbox: hurtbox_at(0, 12),
    }
}

/// The enemy to create at each spawn event, with its vulnerability volume.
pub fn spawn_enemy() -> (family: Family)
    ensures
        family == enemy(),
{
    Family {
        body: Blueprint {
            role: Role::Enemy,
            x: 0,
            y: 128,
            turn: 0,
            body: Some(Body::Kinematic),
            rotation_locked: false,
            volume: Some(
                Volume {
                    shape: Shape::Rectangle { width: BODY_SIDE, height: BODY_SIDE },
                    layer: AvianLayers::Physics,
                    sensor: false,
                },
            ),
            decay: None,
            draws_interface: false,
        },
        hurtbox: hurtbox_at(0, 0),
    }
}

/// The attack volume to create, as a child of the player, when it swings.
pub fn spawn_attack() -> (blueprint: Blueprint)
    ensures
        blueprint == attack(),
{
    Blueprint {
        role: Role::Hitbox,
        x: 0,
        y: 32,
        turn: 0,
        body: None,
        rotation_locked: false,
        volume: Some(
            Volume {
                shape: Shape::Rectangle { width: 8, height: 32 },
                layer: AvianLayers::Hit,
                sensor: true,
            },
        ),
        decay: Some(Decay { counter: ATTACK_DECAY }),
        draws_interface: false,
    }
}

} // verus!
