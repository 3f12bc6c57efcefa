//! From a pixel to the ray that is cast through it.
//!
//! The camera looks through a plane that stands one focal length in front
//! of it. What needs a sine, a cosine or an arcsine is left to the caller:
//! the library says of which numbers it needs them, and goes on from what
//! the caller found.

use crate::cframe::{Angle, CFrame};
use crate::frame::FrameJob;
use crate::intersect::TWO_BITS;
use crate::kernel::pixel_position;
use crate::bounds::{apart, lemma_times_and_over_changes_little};
use crate::rounding::{grid_pattern, lemma_grid_units};
use crate::scalar::{magnitude_units, Scalar, ONE_BITS, ZERO_BITS};
use vstd::arithmetic::power2::{lemma2_to64, lemma_pow2_adds, lemma_pow2_pos, pow2};
use vstd::prelude::*;

verus! {

/// The pattern of pi, as near as the format has it.
pub const PI_BITS: u32 = 0x4049_0fdb;

/// The pattern of the number 180.
pub const HALF_TURN_BITS: u32 = 0x4334_0000;

/// The pattern of the number 90.
pub const QUARTER_TURN_BITS: u32 = 0x42b4_0000;

/// The pattern of a quarter of pi.
pub const QUARTER_PI_BITS: u32 = 0x3f49_0fdb;

/// Half of a field of view given in degrees, in radians.
pub open spec fn half_view(fov: Scalar) -> Scalar {
    fov.quotient(Scalar { bits: HALF_TURN_BITS }).product(Scalar { bits: PI_BITS }).quotient(
        Scalar { bits: TWO_BITS },
    )
}

/// What an angle lacks of a quarter turn.
pub open spec fn complement(angle: Scalar) -> Scalar {
    Scalar { bits: PI_BITS }.quotient(Scalar { bits: TWO_BITS }).difference(angle)
}

/// The width and the height of the projection plane, by the law of sines
/// on the triangle between the eye and the plane's edges: the width is to
/// the sine of half the field of view as the focal length is to the sine
/// of that angle's complement. The height is to the width as the image's
/// height is to its width.
pub open spec fn plane(
    focal_length: Scalar,
    sin_half_view: Scalar,
    sin_complement: Scalar,
    width: nat,
    height: nat,
) -> (Scalar, Scalar) {
    let plane_width = focal_length.product(sin_half_view).quotient(sin_complement);
    (plane_width, plane_width.product(Scalar::whole(height).quotient(Scalar::whole(width))))
}

/// Where on the plane, along one side of it, a pixel lies: the plane
/// reaches from minus half its size to half its size, and pixel `i` of
/// `count` lies `i / count` of the way.
pub open spec fn plane_coordinate(size: Scalar, i: nat, count: nat) -> Scalar {
    size.quotient(Scalar { bits: TWO_BITS }).negation().sum(
        Scalar::whole(i).quotient(Scalar::whole(count)).product(size),
    )
}

/// The sine of the angle by which a ray through a point of the plane
/// leaves the camera's view: the point's coordinate over its distance from
/// the eye.
pub open spec fn deflection(focal_length: Scalar, coordinate: Scalar) -> Scalar {
    coordinate.quotient(
        focal_length.product(focal_length).sum(coordinate.product(coordinate)).root(),
    )
}

/// The ray that leaves the eye turned by two angles off the eye's view,
/// the first up and down, the second left and right. It starts where the
/// eye stands, and its rotation is the eye's rotation followed by the
/// turn: the matrix product of the two, the eye's on the left.
pub open spec fn ray_through(eye: CFrame, alpha: Angle, beta: Angle) -> CFrame {
    let zero = Scalar { bits: ZERO_BITS };
    let one = Scalar { bits: ONE_BITS };
    eye.turned_by(CFrame::turn(alpha, beta, Angle { sin: zero, cos: one }))
}

/// The number that a positive pattern denotes, by its grid.
proof fn lemma_units_of(bits: u32, g: nat, q: nat)
    requires
        bits == grid_pattern(g, q),
        0x80_0000 <= q < 0x100_0000,
        bits < 0x7f80_0000,
    ensures
        (Scalar { bits }).units() == q * pow2(g),
        !(Scalar { bits }).is_nan(),
        !(Scalar { bits }).is_infinite(),
        (Scalar { bits }).magnitude() == bits,
        !(Scalar { bits }).sign_negative(),
{
    lemma_grid_units(g, q);
}

/// At a field of view of 90 degrees the two angles whose sines the
/// projection plane is made from are the same, a quarter of pi each. With
/// one sine for both, the plane is as wide as the focal length, but for
/// the rounding of a product and of a quotient.
pub proof fn lemma_square_view()
    ensures
        half_view(Scalar { bits: QUARTER_TURN_BITS }) == (Scalar { bits: QUARTER_PI_BITS }),
        complement(Scalar { bits: QUARTER_PI_BITS }) == (Scalar { bits: QUARTER_PI_BITS }),
{
    let ninety = Scalar { bits: QUARTER_TURN_BITS };
    let half_turn = Scalar { bits: HALF_TURN_BITS };
    let half = Scalar { bits: 0x3f00_0000 };
    let two = Scalar { bits: TWO_BITS };
    let pi = Scalar { bits: PI_BITS };
    let half_pi = Scalar { bits: 0x3fc9_0fdb };
    let quarter_pi = Scalar { bits: QUARTER_PI_BITS };
    let minus_quarter_pi = Scalar { bits: 0xbf49_0fdb };
    let m: nat = 0xc9_0fdb;
    let n: nat = 0xb4_0000;
    let h: nat = 0x80_0000;
    lemma2_to64();
    lemma_units_of(QUARTER_TURN_BITS, 132, n);
    lemma_units_of(HALF_TURN_BITS, 133, n);
    lemma_units_of(0x3f00_0000, 125, h);
    lemma_units_of(TWO_BITS, 127, h);
    lemma_units_of(PI_BITS, 127, m);
    lemma_units_of(0x3fc9_0fdb, 126, m);
    lemma_units_of(QUARTER_PI_BITS, 125, m);
    lemma_grid_units(125, m);
    assert(minus_quarter_pi.magnitude() == QUARTER_PI_BITS);
    assert(minus_quarter_pi.units() == -(m * pow2(125)));
    assert(quarter_pi.negation() == minus_quarter_pi);
    lemma_pow2_adds(1, 125);
    lemma_pow2_adds(1, 126);
    lemma_pow2_adds(1, 132);
    lemma_pow2_adds(23, 127);
    lemma_pow2_adds(23, 125);
    lemma_pow2_adds(148, 1);
    lemma_pow2_adds(149, 1);
    lemma_pow2_pos(125);
    lemma_pow2_pos(132);
    let p125: nat = pow2(125);
    let p132: nat = pow2(132);
    let one: nat = pow2(149);
    assert(pow2(126) == 2 * p125 && pow2(127) == 4 * p125 && pow2(133) == 2 * p132);
    assert(half.units() == pow2(148) && two.units() == pow2(150));
    assert(one == 2 * pow2(148) && pow2(150) == 2 * one);
    // 90 / 180 is a half.
    assert(ninety.units() * one == half.units() * half_turn.units()) by (nonlinear_arith)
        requires
            ninety.units() == n * p132,
            half_turn.units() == n * (2 * p132),
            one == 2 * half.units(),
    ;
    ninety.lemma_exact_results_stay(half_turn, half);
    // Half of pi.
    assert(half.units() * pi.units() == half_pi.units() * one) by (nonlinear_arith)
        requires
            pi.units() == m * (4 * p125),
            half_pi.units() == m * (2 * p125),
            one == 2 * half.units(),
    ;
    half.lemma_exact_results_stay(pi, half_pi);
    assert(pi.units() * one == half_pi.units() * two.units()) by (nonlinear_arith)
        requires
            pi.units() == m * (4 * p125),
            half_pi.units() == m * (2 * p125),
            two.units() == 2 * one,
    ;
    pi.lemma_exact_results_stay(two, half_pi);
    // Half of that.
    assert(half_pi.units() * one == quarter_pi.units() * two.units()) by (nonlinear_arith)
        requires
            half_pi.units() == m * (2 * p125),
            quarter_pi.units() == m * p125,
            two.units() == 2 * one,
    ;
    half_pi.lemma_exact_results_stay(two, quarter_pi);
    // And what that lacks of half of pi.
    assert(half_pi.units() + minus_quarter_pi.units() == quarter_pi.units()) by (nonlinear_arith)
        requires
            half_pi.units() == m * (2 * p125),
            quarter_pi.units() == m * p125,
            minus_quarter_pi.units() == -(m * p125),
    ;
    half_pi.lemma_exact_results_stay(minus_quarter_pi, quarter_pi);
}

/// Where both sines are one number between a half and one, as the sine of
/// a quarter of pi is, the projection plane is as wide as the focal length
/// to within one part in 100000 of the larger of the focal length and
/// one. Only from a focal length of 2^127 up can the width come to
/// infinity instead.
pub proof fn lemma_square_plane(focal_length: Scalar, sine: Scalar, width: nat, height: nat)
    requires
        focal_length.positive(),
        !focal_length.is_infinite(),
        !sine.is_nan(),
        !sine.sign_negative(),
        pow2(148) <= sine.units() <= pow2(149),
    ensures
        ({
            let plane_width = plane(focal_length, sine, sine, width, height).0;
            let limit = if focal_length.units() >= pow2(149) {
                focal_length.units()
            } else {
                pow2(149) as int
            };
            &&& !plane_width.is_nan()
            &&& !plane_width.sign_negative()
            &&& plane_width.is_infinite() ==> 2 * focal_length.units() >= magnitude_units(
                0x7f80_0000,
            )
            &&& !plane_width.is_infinite() ==> 100_000 * apart(
                plane_width.units(),
                focal_length.units(),
            ) <= limit
        }),
{
    lemma_times_and_over_changes_little(focal_length, sine);
}

/// The two angles whose sines the projection plane is made from: half the
/// field of view, and that angle's complement, both in radians.
pub fn view_angles(fov: Scalar) -> (angles: (Scalar, Scalar))
    ensures
        angles.0 == half_view(fov),
        angles.1 == complement(half_view(fov)),
{
    let two = Scalar { bits: TWO_BITS };
    let pi = Scalar { bits: PI_BITS };
    let half = fov.over(Scalar { bits: HALF_TURN_BITS }).times(pi).over(two);
    (half, pi.over(two).minus(half))
}

/// The width and the height of the projection plane of a frame, from the
/// sines of the two angles that [`view_angles`] gives for the frame's
/// field of view.
pub fn projection_plane(job: &FrameJob, sin_half_view: Scalar, sin_complement: Scalar) -> (size: (
    Scalar,
    Scalar,
))
    ensures
        size == plane(
            job.focal_length,
            sin_half_view,
            sin_complement,
            job.width as nat,
            job.height as nat,
        ),
{
    let plane_width = job.focal_length.times(sin_half_view).over(sin_complement);
    let aspect = Scalar::from_u32(job.height as u32).over(Scalar::from_u32(job.width as u32));
    (plane_width, plane_width.times(aspect))
}

/// The sines of the two angles by which the ray through a pixel leaves
/// the camera's view: first up and down, then left and right.
pub fn pixel_deflections(job: &FrameJob, size: (Scalar, Scalar), index: usize) -> (sines: (
    Scalar,
    Scalar,
))
    requires
        index < job.width * job.height,
    ensures
        sines.0 == deflection(
            job.focal_length,
            plane_coordinate(size.1, (index / job.width as usize) as nat, job.height as nat),
        ),
        sines.1 == deflection(
            job.focal_length,
            plane_coordinate(size.0, (index % job.width as usize) as nat, job.width as nat),
        ),
{
    assert(job.width > 0) by (nonlinear_arith)
        requires
            index < job.width * job.height,
    ;
    let (x, y) = pixel_position(index, job.width);
    assert(y < job.height) by (nonlinear_arith)
        requires
            y * job.width + x == index,
            index < job.width * job.height,
            job.width > 0,
    ;
    assert(x == index % job.width as usize && y == index / job.width as usize) by {
        vstd::arithmetic::div_mod::lemma_fundamental_div_mod_converse(
            index as int,
            job.width as int,
            y as int,
            x as int,
        );
    }
    let across = coordinate(size.0, x as u32, job.width as u32);
    let down = coordinate(size.1, y as u32, job.height as u32);
    (leaving(job.focal_length, down), leaving(job.focal_length, across))
}

/// Where on the plane a pixel lies, along one side of it.
fn coordinate(size: Scalar, i: u32, count: u32) -> (at: Scalar)
    ensures
        at == plane_coordinate(size, i as nat, count as nat),
{
    size.over(Scalar { bits: TWO_BITS }).negated().plus(
        Scalar::from_u32(i).over(Scalar::from_u32(count)).times(size),
    )
}

/// The sine of the angle by which a ray through a point of the plane
/// leaves the camera's view.
fn leaving(focal_length: Scalar, coordinate: Scalar) -> (sine: Scalar)
    ensures
        sine == deflection(focal_length, coordinate),
{
    coordinate.over(
        focal_length.times(focal_length).plus(coordinate.times(coordinate)).square_root(),
    )
}

/// The ray that leaves the eye of a frame turned by two angles off the
/// eye's view.
pub fn pixel_ray(job: &FrameJob, alpha: Angle, beta: Angle) -> (ray: CFrame)
    requires
        job@.fits(),
    ensures
        ray == ray_through(job@.eye(), alpha, beta),
{
    let mut ray = job.eye();
    ray.multiply_angles(
        alpha,
        beta,
        Angle { sin: Scalar { bits: ZERO_BITS }, cos: Scalar { bits: ONE_BITS } },
    );
    ray
}

} // verus!
