//! Where a ray meets the spheres of a scene.
//!
//! A ray is a transform: it starts where the transform stands and travels
//! against the third column of its rotation. The point at distance `t`
//! along the ray is the start less `t` times that column.

use crate::cframe::CFrame;
use crate::frame::{FrameJob, FrameJobView};
use crate::kernel::{
    hit_of, is_nearest_hit, nearest_hit, nearest_positive_root, positive_root, Hit,
};
use crate::scalar::{Scalar, ZERO_BITS};
use crate::vector::Vector;
use vstd::prelude::*;

verus! {

/// The pattern of the number two.
pub const TWO_BITS: u32 = 0x4000_0000;

/// The pattern of the number four.
pub const FOUR_BITS: u32 = 0x4080_0000;

/// The pattern of the number -0.5.
pub const MINUS_HALF_BITS: u32 = 0xbf00_0000;

/// The two solutions of `a * t * t + b * t + c = 0`, if there are any. Of
/// the two ways to write them down, the one is taken that never subtracts
/// two numbers that are nearly the same.
pub open spec fn roots(a: Scalar, b: Scalar, c: Scalar) -> Option<(Scalar, Scalar)> {
    let zero = Scalar { bits: ZERO_BITS };
    let minus_half = Scalar { bits: MINUS_HALF_BITS };
    let discriminant = b.product(b).difference(Scalar { bits: FOUR_BITS }.product(a).product(c));
    if discriminant.less(zero) {
        None
    } else if discriminant.same_number(zero) {
        let t = minus_half.product(b).quotient(a);
        Some((t, t))
    } else {
        let q = if b.positive() {
            minus_half.product(b.sum(discriminant.root()))
        } else {
            minus_half.product(b.difference(discriminant.root()))
        };
        Some((q.quotient(a), c.quotient(q)))
    }
}

/// How far along a ray a sphere is struck, if it is struck in front of
/// the ray's start.
pub open spec fn sphere_distance(center: Vector, radius: Scalar, ray: CFrame) -> Option<Scalar> {
    let towards = center.difference(ray.position());
    let backward = ray.backward();
    let a = backward.dot(backward);
    let b = Scalar { bits: TWO_BITS }.product(backward.dot(towards));
    let c = towards.dot(towards).difference(radius.product(radius));
    match roots(a, b, c) {
        Some((t0, t1)) => positive_root(t0, t1),
        None => None,
    }
}

/// How far along a ray each object of a frame is struck.
pub open spec fn distances(job: FrameJobView, ray: CFrame) -> Seq<Option<Scalar>> {
    Seq::new(
        job.object_count as nat,
        |i: int| sphere_distance(job.center(i), job.radius(i), ray),
    )
}

/// Solves `a * t * t + b * t + c = 0`.
pub fn solve_quadratic(a: Scalar, b: Scalar, c: Scalar) -> (solutions: Option<(Scalar, Scalar)>)
    ensures
        solutions == roots(a, b, c),
{
    let zero = Scalar { bits: ZERO_BITS };
    let minus_half = Scalar { bits: MINUS_HALF_BITS };
    let discriminant = b.times(b).minus(Scalar { bits: FOUR_BITS }.times(a).times(c));
    if discriminant.lt(zero) {
        None
    } else if discriminant.is_same_number(zero) {
        let t = minus_half.times(b).over(a);
        Some((t, t))
    } else {
        let q = if b.is_positive() {
            minus_half.times(b.plus(discriminant.square_root()))
        } else {
            minus_half.times(b.minus(discriminant.square_root()))
        };
        Some((q.over(a), c.over(q)))
    }
}

/// Works out how far along a ray a sphere is struck.
pub fn intersect_sphere(center: Vector, radius: Scalar, ray: &CFrame) -> (distance: Option<
    Scalar,
>)
    ensures
        distance == sphere_distance(center, radius, *ray),
{
    let towards = center.minus(ray.get_position());
    let backward = ray.get_backward();
    let a = backward.dot_product(backward);
    let b = Scalar { bits: TWO_BITS }.times(backward.dot_product(towards));
    let c = towards.dot_product(towards).minus(radius.times(radius));
    match solve_quadratic(a, b, c) {
        Some((t0, t1)) => nearest_positive_root(t0, t1),
        None => None,
    }
}

/// Finds what a ray strikes first among the objects of a frame.
pub fn intersect_objects(job: &FrameJob, ray: &CFrame) -> (hit: Option<Hit>)
    requires
        job@.fits(),
    ensures
        hit == hit_of(distances(job@, *ray)),
        is_nearest_hit(distances(job@, *ray), hit),
{
    let count: usize = job.object_cframes.len() / 12;
    let mut found: Vec<Option<Scalar>> = Vec::new();
    let mut i: usize = 0;
    while i < count
        invariant
            job@.fits(),
            count == job.object_count,
            i <= count,
            found@.len() == i,
            forall|k: int| 0 <= k < i ==> found@[k] == distances(job@, *ray)[k],
        decreases count - i,
    {
        let distance = intersect_sphere(job.center(i), job.radius(i), ray);
        found.push(distance);
        i = i + 1;
    }
    assert(found@ =~= distances(job@, *ray));
    nearest_hit(&found)
}

} // verus!
