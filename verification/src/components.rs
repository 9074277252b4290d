//! Component value types of the simulation.
//!
//! All quantities are fixed point over `i64`: positions in millionths of a
//! world unit, velocities in thousandths of a unit per second, rotations in
//! microradians, masses in grams. With time steps in milliseconds, one
//! movement step `position + velocity * dt` is exact: a thousandth of a unit
//! per second times a millisecond is a millionth of a unit.

use vstd::prelude::*;
use crate::component::Component;

verus! {

broadcast use vstd::string::group_string_axioms;

/// Tag of the position component type.
pub const POSITION_TAG: u64 = 1;

/// Tag of the velocity component type.
pub const VELOCITY_TAG: u64 = 2;

/// Tag of the rotation component type.
pub const ROTATION_TAG: u64 = 3;

/// Tag of the mass component type.
pub const MASS_TAG: u64 = 4;

/// Tag of the name component type.
pub const NAME_TAG: u64 = 5;

/// 2D position in world space, in millionths of a unit per axis.
#[derive(Debug, Clone, Copy, PartialEq, Eq, Structural)]
pub struct Position {
    /// X coordinate, in millionths of a unit.
    pub x: i64,
    /// Y coordinate, in millionths of a unit.
    pub y: i64,
}

impl Position {
    /// A position at the given coordinates.
    pub fn new(x: i64, y: i64) -> (p: Position)
        ensures
            p == (Position { x, y }),
    {
        Position { x, y }
    }

    /// A position at the origin.
    pub fn zero() -> (p: Position)
        ensures
            p == (Position { x: 0, y: 0 }),
    {
        Position { x: 0, y: 0 }
    }
}

/// 2D velocity, in thousandths of a unit per second per axis.
#[derive(Debug, Clone, Copy, PartialEq, Eq, Structural)]
pub struct Velocity {
    /// Velocity along X, in thousandths of a unit per second.
    pub x: i64,
    /// Velocity along Y, in thousandths of a unit per second.
    pub y: i64,
}

impl Velocity {
    /// A velocity with the given components.
    pub fn new(x: i64, y: i64) -> (v: Velocity)
        ensures
            v == (Velocity { x, y }),
    {
        Velocity { x, y }
    }

    /// A zero velocity: not moving.
    pub fn zero() -> (v: Velocity)
        ensures
            v == (Velocity { x: 0, y: 0 }),
    {
        Velocity { x: 0, y: 0 }
    }
}

/// Rotation from the default orientation, in microradians.
#[derive(Debug, Clone, Copy, PartialEq, Eq, Structural)]
pub struct Rotation {
    /// Angle in microradians; positive is counter-clockwise.
    pub angle: i64,
}

impl Rotation {
    /// A rotation of the given angle.
    pub fn new(angle: i64) -> (r: Rotation)
        ensures
            r == (Rotation { angle }),
    {
        Rotation { angle }
    }

    /// No rotation.
    pub fn zero() -> (r: Rotation)
        ensures
            r == (Rotation { angle: 0 }),
    {
        Rotation { angle: 0 }
    }
}

/// Mass, in grams.
#[derive(Debug, Clone, Copy, PartialEq, Eq, Structural)]
pub struct Mass {
    /// Mass value in grams; expected positive.
    pub value: i64,
}

impl Mass {
    /// A mass of the given value.
    pub fn new(value: i64) -> (m: Mass)
        ensures
            m == (Mass { value }),
    {
        Mass { value }
    }
}

/// A human-readable name, for identification.
#[derive(Debug, Clone, PartialEq)]
pub struct Name {
    /// The name text.
    pub value: String,
}

impl Name {
    /// A name holding the given text.
    pub fn new(name: &str) -> (n: Name)
        ensures
            n.value@ == name@,
    {
        Name { value: name.to_string() }
    }
}

impl vstd::std_specs::convert::FromSpecImpl<String> for Name {
    open spec fn obeys_from_spec() -> bool {
        true
    }

    open spec fn from_spec(name: String) -> Name {
        Name { value: name }
    }
}

impl From<String> for Name {
    fn from(name: String) -> (n: Name) {
        Name { value: name }
    }
}

/// One component value of the simulation: the union of every component type
/// the simulation attaches to entities.
#[derive(Debug, Clone, PartialEq)]
pub enum SimComponent {
    /// A position component.
    Pos(Position),
    /// A velocity component.
    Vel(Velocity),
    /// A rotation component.
    Rot(Rotation),
    /// A mass component.
    Mass(Mass),
    /// A name component.
    Name(Name),
}

impl Component for Position {
    open spec fn spec_tag() -> u64 {
        POSITION_TAG
    }

    fn type_tag() -> (t: u64) {
        POSITION_TAG
    }
}

impl Component for Velocity {
    open spec fn spec_tag() -> u64 {
        VELOCITY_TAG
    }

    fn type_tag() -> (t: u64) {
        VELOCITY_TAG
    }
}

impl Component for Rotation {
    open spec fn spec_tag() -> u64 {
        ROTATION_TAG
    }

    fn type_tag() -> (t: u64) {
        ROTATION_TAG
    }
}

impl Component for Mass {
    open spec fn spec_tag() -> u64 {
        MASS_TAG
    }

    fn type_tag() -> (t: u64) {
        MASS_TAG
    }
}

impl Component for Name {
    open spec fn spec_tag() -> u64 {
        NAME_TAG
    }

    fn type_tag() -> (t: u64) {
        NAME_TAG
    }
}

} // verus!
