//! Integer voxel-grid vocabulary shared by the simulation and the client.

use vstd::prelude::*;

verus! {

/// A signed voxel (or chunk) coordinate.
#[derive(Debug, Clone, Copy, PartialEq, Eq, Structural, Hash, PartialOrd, Ord, Default)]
pub struct Vec3i {
    pub x: i32,
    pub y: i32,
    pub z: i32,
}

/// An unsigned extent (chunk-grid dimensions).
#[derive(Debug, Clone, Copy, PartialEq, Eq, Structural, Hash, Default)]
pub struct Vec3u {
    pub x: u32,
    pub y: u32,
    pub z: u32,
}

/// What occupies one voxel.
#[derive(Debug, Clone, Copy, PartialEq, Eq, Structural, Hash)]
pub enum BlockType {
    Air,
    SolidStone,
}

impl Vec3i {
    pub fn new(x: i32, y: i32, z: i32) -> (r: Vec3i)
        ensures
            r == (Vec3i { x, y, z }),
    {
        Vec3i { x, y, z }
    }

    /// The origin.
    pub fn zero() -> (r: Vec3i)
        ensures
            r == (Vec3i { x: 0, y: 0, z: 0 }),
    {
        Vec3i { x: 0, y: 0, z: 0 }
    }

    /// The coordinate as an ordered integer triple (the key of ordered sets).
    pub open spec fn key(self) -> (i32, i32, i32) {
        (self.x, self.y, self.z)
    }

    pub open spec fn from_key(k: (i32, i32, i32)) -> Vec3i {
        Vec3i { x: k.0, y: k.1, z: k.2 }
    }

    /// Componentwise sum, in mathematical integers.
    pub open spec fn add_spec(self, o: Vec3i) -> (int, int, int) {
        (self.x + o.x, self.y + o.y, self.z + o.z)
    }

    /// Componentwise sum of two coordinates.
    pub fn add(self, o: Vec3i) -> (r: Vec3i)
        requires
            i32::MIN <= self.x + o.x <= i32::MAX,
            i32::MIN <= self.y + o.y <= i32::MAX,
            i32::MIN <= self.z + o.z <= i32::MAX,
        ensures
            r.x == self.x + o.x,
            r.y == self.y + o.y,
            r.z == self.z + o.z,
    {
        Vec3i { x: self.x + o.x, y: self.y + o.y, z: self.z + o.z }
    }
}

impl Vec3u {
    pub fn new(x: u32, y: u32, z: u32) -> (r: Vec3u)
        ensures
            r == (Vec3u { x, y, z }),
    {
        Vec3u { x, y, z }
    }
}

/// Sign of an integer: -1, 0 or 1.
pub open spec fn sign(v: int) -> int {
    if v > 0 {
        1
    } else if v < 0 {
        -1
    } else {
        0
    }
}

pub fn signum(v: i32) -> (r: i32)
    ensures
        r == sign(v as int),
{
    if v > 0 {
        1
    } else if v < 0 {
        -1
    } else {
        0
    }
}

/// A step to one of the 26 neighbours of a voxel.
pub open spec fn is_adjacent_spec(d: Vec3i) -> bool {
    &&& (d.x != 0 || d.y != 0 || d.z != 0)
    &&& -1 <= d.x <= 1
    &&& -1 <= d.y <= 1
    &&& -1 <= d.z <= 1
}

/// Whether `direction` is a unit step (each axis in -1..=1, not all zero).
pub fn is_adjacent_direction(direction: Vec3i) -> (r: bool)
    ensures
        r == is_adjacent_spec(direction),
{
    let has_any_axis = direction.x != 0 || direction.y != 0 || direction.z != 0;
    let within = -1 <= direction.x && direction.x <= 1 && -1 <= direction.y && direction.y <= 1
        && -1 <= direction.z && direction.z <= 1;
    has_any_axis && within
}

/// `container` covers every nonzero axis of `direction` with the same sign.
pub open spec fn direction_contains_spec(container: Vec3i, direction: Vec3i) -> bool {
    &&& container != Vec3i::zero_spec()
    &&& direction != Vec3i::zero_spec()
    &&& (direction.x == 0 || sign(container.x as int) == sign(direction.x as int))
    &&& (direction.y == 0 || sign(container.y as int) == sign(direction.y as int))
    &&& (direction.z == 0 || sign(container.z as int) == sign(direction.z as int))
}

impl Vec3i {
    pub open spec fn zero_spec() -> Vec3i {
        Vec3i { x: 0, y: 0, z: 0 }
    }
}

/// Whether a held input direction still includes the direction of an active move.
pub fn direction_contains(container: Vec3i, direction: Vec3i) -> (r: bool)
    ensures
        r == direction_contains_spec(container, direction),
{
    if (container.x == 0 && container.y == 0 && container.z == 0) || (direction.x == 0
        && direction.y == 0 && direction.z == 0) {
        return false;
    }
    (direction.x == 0 || signum(container.x) == signum(direction.x)) && (direction.y == 0
        || signum(container.y) == signum(direction.y)) && (direction.z == 0 || signum(container.z)
        == signum(direction.z))
}

/// Unit direction of travel from `origin` to `target`, per axis.
pub open spec fn step_direction_spec(origin: Vec3i, target: Vec3i) -> Vec3i {
    Vec3i {
        x: sign(target.x - origin.x) as i32,
        y: sign(target.y - origin.y) as i32,
        z: sign(target.z - origin.z) as i32,
    }
}

pub fn step_direction(origin: Vec3i, target: Vec3i) -> (r: Vec3i)
    ensures
        r == step_direction_spec(origin, target),
{
    let dx = target.x as i64 - origin.x as i64;
    let dy = target.y as i64 - origin.y as i64;
    let dz = target.z as i64 - origin.z as i64;
    Vec3i {
        x: if dx > 0 { 1 } else if dx < 0 { -1 } else { 0 },
        y: if dy > 0 { 1 } else if dy < 0 { -1 } else { 0 },
        z: if dz > 0 { 1 } else if dz < 0 { -1 } else { 0 },
    }
}

} // verus!
