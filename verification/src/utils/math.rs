//! Two- and three-component vectors.

use std::ops::Add;
use vstd::prelude::*;
use vstd::std_specs::ops::AddSpec;

verus! {

/// A pair of coordinates.
#[derive(Debug, Copy, Clone, PartialEq, Eq, Structural)]
pub struct Vec2<T> {
    pub x: T,
    pub y: T,
}

impl<T> Vec2<T> {
    pub fn new(x: T, y: T) -> (v: Vec2<T>)
        ensures
            v.x == x,
            v.y == y,
    {
        Vec2 { x, y }
    }
}

impl<T: Add<Output = T>> Add for Vec2<T> {
    type Output = Vec2<T>;

    /// Adds component by component.
    fn add(self, other: Vec2<T>) -> (sum: Vec2<T>) {
        Vec2 { x: self.x + other.x, y: self.y + other.y }
    }
}

impl<T: Add<Output = T>> vstd::std_specs::ops::AddSpecImpl for Vec2<T> {
    open spec fn obeys_add_spec() -> bool {
        T::obeys_add_spec()
    }

    open spec fn add_req(self, other: Vec2<T>) -> bool {
        self.x.add_req(other.x) && self.y.add_req(other.y)
    }

    open spec fn add_spec(self, other: Vec2<T>) -> Vec2<T> {
        Vec2 { x: self.x.add_spec(other.x), y: self.y.add_spec(other.y) }
    }
}

/// A triple of components; the crate uses it for colours.
#[derive(Debug, Copy, Clone, PartialEq, Eq, Structural)]
pub struct Vec3<T> {
    pub x: T,
    pub y: T,
    pub z: T,
}

impl<T> Vec3<T> {
    pub fn new(x: T, y: T, z: T) -> (v: Vec3<T>)
        ensures
            v.x == x,
            v.y == y,
            v.z == z,
    {
        Vec3 { x, y, z }
    }
}

impl<T: Add<Output = T>> Add for Vec3<T> {
    type Output = Vec3<T>;

    /// Adds component by component.
    fn add(self, other: Vec3<T>) -> (sum: Vec3<T>) {
        Vec3 { x: self.x + other.x, y: self.y + other.y, z: self.z + other.z }
    }
}

impl<T: Add<Output = T>> vstd::std_specs::ops::AddSpecImpl for Vec3<T> {
    open spec fn obeys_add_spec() -> bool {
        T::obeys_add_spec()
    }

    open spec fn add_req(self, other: Vec3<T>) -> bool {
        self.x.add_req(other.x) && self.y.add_req(other.y) && self.z.add_req(other.z)
    }

    open spec fn add_spec(self, other: Vec3<T>) -> Vec3<T> {
        Vec3 {
            x: self.x.add_spec(other.x),
            y: self.y.add_spec(other.y),
            z: self.z.add_spec(other.z),
        }
    }
}

} // verus!
