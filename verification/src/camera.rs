//! A window on a map that follows a point.

use vstd::prelude::*;

verus! {

/// The part of a map that is shown: its upper left corner and its extent.
#[derive(Debug, Copy, Clone, PartialEq, Eq, Structural)]
pub struct Camera {
    pub x: usize,
    pub y: usize,
    pub width: usize,
    pub height: usize,
}

/// Where an edge of the window lies after the window followed a point along
/// one axis. The window is `extent` wide on that axis and starts at `start`;
/// it moves one step towards the greater coordinates if the point lies less
/// than `margin` before its far edge and the far edge is short of `bound`,
/// and then one step back if the point lies less than `margin` behind its
/// near edge, as it was, and the window is off zero.
pub open spec fn followed(start: usize, extent: usize, margin: int, point: int, bound: usize) -> int {
    let ahead = if point > start + extent - margin && start + extent < bound {
        start + 1
    } else {
        start as int
    };
    if point < start + margin && ahead > 0 {
        ahead - 1
    } else {
        ahead
    }
}

impl Default for Camera {
    fn default() -> (camera: Camera)
        ensures
            camera == (Camera { x: 0, y: 0, width: 50, height: 15 }),
    {
        Camera { x: 0, y: 0, width: 50, height: 15 }
    }
}

impl Camera {
    pub fn new() -> (camera: Camera)
        ensures
            camera == (Camera { x: 0, y: 0, width: 50, height: 15 }),
    {
        Camera { x: 0, y: 0, width: 50, height: 15 }
    }

    /// Whether the point lies in the window, its edges included.
    pub open spec fn spec_point_intersects(self, x: usize, y: usize) -> bool {
        self.x <= x <= self.x + self.width && self.y <= y <= self.y + self.height
    }

    pub fn point_intersects(&self, x: usize, y: usize) -> (inside: bool)
        ensures
            inside == self.spec_point_intersects(x, y),
    {
        x >= self.x && x - self.x <= self.width && y >= self.y && y - self.y <= self.height
    }

    /// Lets the window follow the point `(x, y)` on a map with the given
    /// bounds: by at most one step on each axis, keeping a margin of five
    /// columns and two rows around the point.
    pub fn move_camera(&mut self, x: i32, y: i32, x_bound: usize, y_bound: usize)
        requires
            old(self).x + old(self).width + 5 <= i32::MAX,
            old(self).y + old(self).height + 2 <= i32::MAX,
        ensures
            final(self).x == followed(old(self).x, old(self).width, 5, x as int, x_bound),
            final(self).y == followed(old(self).y, old(self).height, 2, y as int, y_bound),
            final(self).width == old(self).width,
            final(self).height == old(self).height,
    {
        let cam_x_max: i64 = (self.x + self.width) as i64 - 5;
        let cam_x_min: i64 = (self.x + 5) as i64;
        if x as i64 > cam_x_max && (self.x + self.width) < x_bound {
            self.x += 1;
        }
        if (x as i64) < cam_x_min && self.x > 0 {
            self.x -= 1;
        }
        let cam_y_max: i64 = (self.y + self.height) as i64 - 2;
        let cam_y_min: i64 = (self.y + 2) as i64;
        if y as i64 > cam_y_max && (self.y + self.height) < y_bound {
            self.y += 1;
        }
        if (y as i64) < cam_y_min && self.y > 0 {
            self.y -= 1;
        }
    }
}

} // verus!
