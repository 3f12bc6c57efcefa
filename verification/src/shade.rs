//! The color of the point that a ray strikes.

use crate::cframe::{Angle, CFrame};
use crate::frame::{FrameJob, FrameJobView};
use crate::project::{pixel_ray, ray_through};
use crate::intersect::{distances, intersect_objects};
use crate::kernel::{hit_of, pixel_color, pixel_of, OPAQUE};
use crate::rounding::{lemma_nearest_of_equal_values, lemma_numbers_round_to_themselves};
use crate::scalar::{magnitude_units, Scalar, ZERO_BITS};
use crate::vector::Vector;
use vstd::arithmetic::power2::{lemma_pow2_pos, pow2};
use vstd::prelude::*;

verus! {

/// The pattern of the number 0.01: how far off the surface the ray
/// towards the light starts, so that it does not strike the surface it
/// starts from.
pub const BIAS_BITS: u32 = 0x3c23_d70a;

/// The ray that starts at a point and travels against a direction.
pub open spec fn ray_against(start: Vector, direction: Vector) -> CFrame {
    let zero = Scalar { bits: ZERO_BITS };
    CFrame {
        x: start.x,
        y: start.y,
        z: start.z,
        r00: zero,
        r01: zero,
        r02: direction.x,
        r10: zero,
        r11: zero,
        r12: direction.y,
        r20: zero,
        r21: zero,
        r22: direction.z,
    }
}

/// The point at a distance along a ray.
pub open spec fn point_at(ray: CFrame, distance: Scalar) -> Vector {
    ray.position().difference(ray.backward().scaled(distance))
}

/// The direction away from the surface of object `index` at a point.
pub open spec fn normal_at(job: FrameJobView, index: int, point: Vector) -> Vector {
    point.difference(job.center(index)).direction()
}

/// How much light a surface with the given normal gets: the cosine of
/// the angle between the normal and the way to the light, or nothing if
/// the surface looks away.
pub open spec fn diffuse(job: FrameJobView, normal: Vector) -> Scalar {
    normal.dot(job.light().negation()).or_zero()
}

/// One channel of the lit color of object `index`: the channel of its
/// color times what the light gives of that channel.
pub open spec fn lit_channel(job: FrameJobView, index: int, channel: int, diffuse: Scalar)
    -> Scalar {
    let light = Scalar::whole(job.light_color[channel] as nat).product(diffuse).quotient(
        Scalar::whole(0xff),
    );
    Scalar::whole(job.object_colors[3 * index + channel] as nat).product(light)
}

/// The pixel that a ray gives: black if it strikes nothing, or if the way
/// from the struck point to the light is barred by another object; else
/// the struck object's color as the light falls on it.
pub open spec fn shaded(job: FrameJobView, ray: CFrame) -> Seq<u8> {
    match hit_of(distances(job, ray)) {
        None => pixel_of(None, None, arbitrary()),
        Some(hit) => {
            let point = point_at(ray, hit.distance);
            let normal = normal_at(job, hit.index as int, point);
            let start = point.sum(normal.scaled(Scalar { bits: BIAS_BITS }));
            let towards_light = hit_of(distances(job, ray_against(start, job.light())));
            let diffuse = diffuse(job, normal);
            pixel_of(
                Some(hit),
                towards_light,
                (
                    lit_channel(job, hit.index as int, 0, diffuse),
                    lit_channel(job, hit.index as int, 1, diffuse),
                    lit_channel(job, hit.index as int, 2, diffuse),
                ),
            )
        },
    }
}

/// A channel that the color of an object lacks stays dark, whatever the
/// light.
pub proof fn lemma_dark_channels_stay_dark(
    job: FrameJobView,
    index: int,
    channel: int,
    diffuse: Scalar,
)
    requires
        job.object_colors[3 * index + channel] == 0,
    ensures
        lit_channel(job, index, channel, diffuse).byte() == 0,
{
    reveal(Scalar::whole);
    reveal(Scalar::product);
    let light = Scalar::whole(job.light_color[channel] as nat).product(diffuse).quotient(
        Scalar::whole(0xff),
    );
    let one: nat = pow2(149);
    lemma_pow2_pos(149);
    assert(0 * pow2(149) == 0) by (nonlinear_arith);
    assert(magnitude_units(0) == 0);
    lemma_numbers_round_to_themselves(0);
    let dark = Scalar::whole(0);
    assert(dark == (Scalar { bits: ZERO_BITS }));
    assert(0 * magnitude_units(light.magnitude()) == 0) by (nonlinear_arith);
    assert(0 * 1 == 0 * one) by (nonlinear_arith);
    lemma_nearest_of_equal_values(0, one, 0, 1);
    let lit = dark.product(light);
    assert(lit.is_nan() || lit.magnitude() == 0);
}

/// Every pixel is four bytes, the last of which says that it is opaque.
/// A pixel shows in a channel only if its ray strikes an object whose
/// color has that channel.
pub proof fn lemma_pixels_show_what_is_struck(job: FrameJobView, ray: CFrame, channel: int)
    requires
        0 <= channel < 3,
    ensures
        shaded(job, ray).len() == 4,
        shaded(job, ray)[3] == OPAQUE,
        shaded(job, ray)[channel] != 0 ==> (hit_of(distances(job, ray)) matches Some(hit)
            && job.object_colors[3 * hit.index + channel] != 0),
{
    match hit_of(distances(job, ray)) {
        None => {},
        Some(hit) => {
            let point = point_at(ray, hit.distance);
            let normal = normal_at(job, hit.index as int, point);
            if job.object_colors[3 * hit.index + channel] == 0 {
                lemma_dark_channels_stay_dark(job, hit.index as int, channel, diffuse(job, normal));
            }
        },
    }
}

/// Works out the direction away from the surface of object `index` at a
/// point.
pub fn calculate_normal_vector(job: &FrameJob, index: usize, point: Vector) -> (normal: Vector)
    requires
        job@.fits(),
        index < job.object_count,
    ensures
        normal == normal_at(job@, index as int, point),
{
    point.minus(job.center(index)).normalized()
}

/// One channel of the lit color of object `index`.
fn light_channel(job: &FrameJob, index: usize, channel: usize, diffuse: Scalar) -> (lit: Scalar)
    requires
        job@.fits(),
        index < job.object_count,
        channel < 3,
    ensures
        lit == lit_channel(job@, index as int, channel as int, diffuse),
{
    let len: usize = job.object_colors.len();
    let light = Scalar::from_u32(job.light_color[channel] as u32).times(diffuse).over(
        Scalar::from_u32(0xff),
    );
    Scalar::from_u32(job.object_colors[3 * index + channel] as u32).times(light)
}

/// Works out the pixel that a ray gives.
pub fn render_pixel(job: &FrameJob, ray: &CFrame) -> (pixel: [u8; 4])
    requires
        job@.fits(),
    ensures
        pixel@ == shaded(job@, *ray),
{
    let zero = Scalar { bits: ZERO_BITS };
    match intersect_objects(job, ray) {
        None => pixel_color(None, None, (zero, zero, zero)),
        Some(hit) => {
            let point = ray.get_position().minus(ray.get_backward().times(hit.distance));
            let normal = calculate_normal_vector(job, hit.index, point);
            let start = point.plus(normal.times(Scalar { bits: BIAS_BITS }));
            let light = job.light();
            let towards_light = intersect_objects(
                job,
                &CFrame::new(
                    start.x,
                    start.y,
                    start.z,
                    zero,
                    zero,
                    light.x,
                    zero,
                    zero,
                    light.y,
                    zero,
                    zero,
                    light.z,
                ),
            );
            let diffuse = normal.dot_product(light.negated()).max_zero();
            pixel_color(
                Some(hit),
                towards_light,
                (
                    light_channel(job, hit.index, 0, diffuse),
                    light_channel(job, hit.index, 1, diffuse),
                    light_channel(job, hit.index, 2, diffuse),
                ),
            )
        },
    }
}

/// The bytes of pixel `i` of an image: four bytes for every pixel, one
/// pixel after another.
pub open spec fn pixel_at(image: Seq<u8>, i: int) -> Seq<u8> {
    image.subrange(4 * i, 4 * i + 4)
}

/// Renders an image, one pixel for every pair of angles by which a ray
/// leaves the eye's view, the first up and down, the second left and
/// right. The pixels stand in the image in the order of the pairs, four
/// bytes each; no pixel depends on another.
pub fn render_rays(job: &FrameJob, angles: &Vec<(Angle, Angle)>) -> (image: Vec<u8>)
    requires
        job@.fits(),
    ensures
        image@.len() == 4 * angles@.len(),
        forall|i: int|
            0 <= i < angles@.len() ==> #[trigger] pixel_at(image@, i) == shaded(
                job@,
                ray_through(job@.eye(), angles@[i].0, angles@[i].1),
            ),
{
    let mut image: Vec<u8> = Vec::new();
    let mut i: usize = 0;
    while i < angles.len()
        invariant
            job@.fits(),
            i <= angles@.len(),
            image@.len() == 4 * i,
            forall|k: int|
                0 <= k < i ==> #[trigger] pixel_at(image@, k) == shaded(
                    job@,
                    ray_through(job@.eye(), angles@[k].0, angles@[k].1),
                ),
        decreases angles@.len() - i,
    {
        let ghost before = image@;
        let (alpha, beta) = angles[i];
        let pixel = render_pixel(job, &pixel_ray(job, alpha, beta));
        image.push(pixel[0]);
        image.push(pixel[1]);
        image.push(pixel[2]);
        image.push(pixel[3]);
        proof {
            assert(image@ =~= before + pixel@);
            assert(pixel_at(image@, i as int) =~= pixel@);
            assert forall|k: int| 0 <= k < i implies #[trigger] pixel_at(image@, k) == shaded(
                job@,
                ray_through(job@.eye(), angles@[k].0, angles@[k].1),
            ) by {
                assert(pixel_at(image@, k) =~= pixel_at(before, k));
            }
        }
        i = i + 1;
    }
    image
}

} // verus!
