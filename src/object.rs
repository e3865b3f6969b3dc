//! A simulated circular body and its two per-body operations: integration of
//! its position and accumulation of acceleration.
use vstd::prelude::*;
use crate::vector::{Vec2, clamp_i32, saturate, zero_vec};

verus! {

/// Display colour of a body; the physics carries it through unchanged.
#[derive(Clone, Copy, Debug, PartialEq, Eq, Structural)]
pub struct Rgba {
    pub r: u8,
    pub g: u8,
    pub b: u8,
    pub a: u8,
}

/// A circular body. Its velocity is implicit: `current_position -
/// old_position`, the displacement over the last sub-step.
#[derive(Clone, Copy, Debug, PartialEq, Eq, Structural)]
pub struct VerletObject {
    pub radius: i32,
    pub current_position: Vec2,
    pub old_position: Vec2,
    pub acceleration: Vec2,
    pub colour: Rgba,
}

/// One coordinate after a Verlet step: current plus velocity plus
/// `acceleration * dt * dt`, saturated to the coordinate range.
pub open spec fn verlet_coord(cur: int, old: int, acc: int, dt: int) -> i32 {
    clamp_i32(cur + (cur - old) + acc * dt * dt)
}

/// The body after one Verlet step of length `dt`: the current position moves
/// into the history, the new position follows from the implicit velocity and
/// the accumulated acceleration, and the acceleration is consumed.
pub open spec fn integrated(o: VerletObject, dt: int) -> VerletObject {
    VerletObject {
        old_position: o.current_position,
        current_position: Vec2 {
            x: verlet_coord(
                o.current_position.x as int,
                o.old_position.x as int,
                o.acceleration.x as int,
                dt,
            ),
            y: verlet_coord(
                o.current_position.y as int,
                o.old_position.y as int,
                o.acceleration.y as int,
                dt,
            ),
        },
        acceleration: zero_vec(),
        ..o
    }
}

/// The body with `acc` added to its acceleration accumulator (saturating).
pub open spec fn accelerated(o: VerletObject, acc: Vec2) -> VerletObject {
    VerletObject {
        acceleration: Vec2 {
            x: clamp_i32(o.acceleration.x + acc.x),
            y: clamp_i32(o.acceleration.y + acc.y),
        },
        ..o
    }
}

/// A body at rest at `position`: both history entries equal, no acceleration.
pub open spec fn spawned(position: Vec2, radius: i32, colour: Rgba) -> VerletObject {
    VerletObject {
        radius,
        current_position: position,
        old_position: position,
        acceleration: zero_vec(),
        colour,
    }
}

fn verlet_step(cur: i32, old: i32, acc: i32, dt: u32) -> (r: i32)
    ensures
        r == verlet_coord(cur as int, old as int, acc as int, dt as int),
{
    let a: i128 = acc as i128;
    let t: i128 = dt as i128;
    assert(-0x1_0000_0000_0000_0000 <= a * t <= 0x1_0000_0000_0000_0000) by (nonlinear_arith)
        requires
            -0x8000_0000 <= a <= 0x8000_0000,
            0 <= t <= 0x1_0000_0000,
    ;
    assert(-0x1_0000_0000_0000_0000_0000_0000 <= a * t * t <= 0x1_0000_0000_0000_0000_0000_0000)
        by (nonlinear_arith)
        requires
            -0x8000_0000 <= a <= 0x8000_0000,
            0 <= t <= 0x1_0000_0000,
    ;
    saturate(cur as i128 + (cur as i128 - old as i128) + a * t * t)
}

impl VerletObject {
    /// A body at rest at `position` with the given radius and colour.
    pub fn new(position: Vec2, radius: i32, colour: Rgba) -> (r: VerletObject)
        ensures
            r == spawned(position, radius, colour),
    {
        VerletObject {
            radius,
            current_position: position,
            old_position: position,
            acceleration: Vec2 { x: 0, y: 0 },
            colour,
        }
    }

    /// Advances the body by one Verlet step of length `dt`.
    pub fn update_pos(&mut self, dt: u32)
        ensures
            *final(self) == integrated(*old(self), dt as int),
    {
        let cur = self.current_position;
        let prev = self.old_position;
        let acc = self.acceleration;
        self.old_position = cur;
        self.current_position = Vec2 {
            x: verlet_step(cur.x, prev.x, acc.x, dt),
            y: verlet_step(cur.y, prev.y, acc.y, dt),
        };
        self.acceleration = Vec2 { x: 0, y: 0 };
    }

    /// Adds `acc` to the acceleration accumulator.
    pub fn accelerate(&mut self, acc: Vec2)
        ensures
            *final(self) == accelerated(*old(self), acc),
    {
        self.acceleration = Vec2 {
            x: saturate(self.acceleration.x as i128 + acc.x as i128),
            y: saturate(self.acceleration.y as i128 + acc.y as i128),
        };
    }
}

} // verus!
