//! Lattice points, directions, and the three exact quantities that the
//! sector test is built from.

use vstd::prelude::*;

verus! {

/// A world position on the integer lattice.
#[derive(Clone, Copy, Debug, PartialEq, Eq, Structural)]
pub struct Point {
    pub x: i32,
    pub y: i32,
    pub z: i32,
}

/// A facing. Only where it points matters, not how long it is; the zero
/// direction faces nothing.
#[derive(Clone, Copy, Debug, PartialEq, Eq, Structural)]
pub struct Direction {
    pub x: i32,
    pub y: i32,
    pub z: i32,
}

/// The squared distance between two points.
pub open spec fn dist_sq(a: Point, b: Point) -> int {
    (b.x - a.x) * (b.x - a.x) + (b.y - a.y) * (b.y - a.y) + (b.z - a.z) * (b.z - a.z)
}

/// The squared length of a direction.
pub open spec fn norm_sq(f: Direction) -> int {
    f.x * f.x + f.y * f.y + f.z * f.z
}

/// The dot product of a direction with the displacement from `a` to `b`.
pub open spec fn dot_toward(f: Direction, a: Point, b: Point) -> int {
    f.x * (b.x - a.x) + f.y * (b.y - a.y) + f.z * (b.z - a.z)
}

/// The largest squared distance between two points.
pub open spec fn dist_sq_bound() -> int {
    3 * (0xffff_ffffint * 0xffff_ffffint)
}

/// The largest squared length of a direction.
pub open spec fn norm_sq_bound() -> int {
    3 * (0x8000_0000int * 0x8000_0000int)
}

/// The largest magnitude of a dot product of a direction and a displacement.
pub open spec fn dot_bound() -> int {
    3 * (0x8000_0000int * 0xffff_ffffint)
}

/// Bounds a product by the bounds of its factors.
pub proof fn lemma_product_within(x: int, y: int, bound_x: int, bound_y: int)
    by (nonlinear_arith)
    requires
        -bound_x <= x <= bound_x,
        -bound_y <= y <= bound_y,
    ensures
        -(bound_x * bound_y) <= x * y <= bound_x * bound_y,
{
}

/// A square is never negative.
pub proof fn lemma_square_nonnegative(x: int)
    by (nonlinear_arith)
    ensures
        0 <= x * x,
{
}

/// Squared distances are bounded, and vanish exactly on coincident points.
pub proof fn lemma_dist_sq_range(a: Point, b: Point)
    ensures
        0 <= dist_sq(a, b) <= dist_sq_bound(),
        dist_sq(a, b) == 0 <==> a == b,
{
    let dx = b.x - a.x;
    let dy = b.y - a.y;
    let dz = b.z - a.z;
    lemma_product_within(dx, dx, 0xffff_ffff, 0xffff_ffff);
    lemma_product_within(dy, dy, 0xffff_ffff, 0xffff_ffff);
    lemma_product_within(dz, dz, 0xffff_ffff, 0xffff_ffff);
    lemma_square_nonnegative(dx);
    lemma_square_nonnegative(dy);
    lemma_square_nonnegative(dz);
    assert(dx != 0 ==> dx * dx > 0) by (nonlinear_arith);
    assert(dy != 0 ==> dy * dy > 0) by (nonlinear_arith);
    assert(dz != 0 ==> dz * dz > 0) by (nonlinear_arith);
}

/// The squared distance between two points.
pub fn distance_squared(a: Point, b: Point) -> (r: u128)
    ensures
        r == dist_sq(a, b),
{
    let dx: i128 = b.x as i128 - a.x as i128;
    let dy: i128 = b.y as i128 - a.y as i128;
    let dz: i128 = b.z as i128 - a.z as i128;
    proof {
        lemma_product_within(dx as int, dx as int, 0xffff_ffff, 0xffff_ffff);
        lemma_product_within(dy as int, dy as int, 0xffff_ffff, 0xffff_ffff);
        lemma_product_within(dz as int, dz as int, 0xffff_ffff, 0xffff_ffff);
        lemma_square_nonnegative(dx as int);
        lemma_square_nonnegative(dy as int);
        lemma_square_nonnegative(dz as int);
    }
    (dx * dx + dy * dy + dz * dz) as u128
}

/// The squared length of a direction.
pub fn length_squared(f: Direction) -> (r: u128)
    ensures
        r == norm_sq(f),
        r <= norm_sq_bound(),
{
    let x: i128 = f.x as i128;
    let y: i128 = f.y as i128;
    let z: i128 = f.z as i128;
    proof {
        lemma_product_within(x as int, x as int, 0x8000_0000, 0x8000_0000);
        lemma_product_within(y as int, y as int, 0x8000_0000, 0x8000_0000);
        lemma_product_within(z as int, z as int, 0x8000_0000, 0x8000_0000);
        lemma_square_nonnegative(x as int);
        lemma_square_nonnegative(y as int);
        lemma_square_nonnegative(z as int);
    }
    (x * x + y * y + z * z) as u128
}

/// The dot product of a direction with the displacement from `a` to `b`.
pub fn dot_product(f: Direction, a: Point, b: Point) -> (r: i128)
    ensures
        r == dot_toward(f, a, b),
        -dot_bound() <= r <= dot_bound(),
{
    let dx: i128 = b.x as i128 - a.x as i128;
    let dy: i128 = b.y as i128 - a.y as i128;
    let dz: i128 = b.z as i128 - a.z as i128;
    let fx: i128 = f.x as i128;
    let fy: i128 = f.y as i128;
    let fz: i128 = f.z as i128;
    proof {
        lemma_product_within(fx as int, dx as int, 0x8000_0000, 0xffff_ffff);
        lemma_product_within(fy as int, dy as int, 0x8000_0000, 0xffff_ffff);
        lemma_product_within(fz as int, dz as int, 0x8000_0000, 0xffff_ffff);
    }
    fx * dx + fy * dy + fz * dz
}

} // verus!
