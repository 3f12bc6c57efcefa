//! The choices that the per-pixel kernel makes.
//!
//! For each pixel the kernel casts a ray, asks every primitive how far along
//! the ray it is struck, keeps the nearest, casts a second ray towards the
//! light and colors the pixel. What is chosen on the way is written down
//! here: which of two roots, which of the struck primitives, light or
//! shadow, and where the pixel goes in the image. The arithmetic that leads
//! up to the choices is in [`crate::project`], [`crate::intersect`] and
//! [`crate::shade`].

use crate::scalar::Scalar;
use vstd::prelude::*;

verus! {

/// The pattern of 9999999, the distance at which the kernel stops looking.
pub const FAR_BITS: u32 = 0x4b18_967f;

/// How many bytes a pixel takes in the output image.
pub const PIXEL_LEN: usize = 4;

/// The alpha of every pixel that the kernel writes.
pub const OPAQUE: u8 = 0xff;

/// A primitive struck by a ray: its place in the scene's order, and how far
/// along the ray.
#[derive(Clone, Copy, Debug, PartialEq, Eq, Structural)]
pub struct Hit {
    pub index: usize,
    pub distance: Scalar,
}

/// Whether a distance counts as a hit: it is there, it lies in front of the
/// ray's origin, and it is nearer than the far limit.
pub open spec fn in_reach(distance: Option<Scalar>) -> bool {
    distance matches Some(t) && t.positive() && t.less(Scalar { bits: FAR_BITS })
}

/// What [`nearest_hit`] answers: the first primitive, in the scene's order,
/// among those struck nearest.
pub open spec fn is_nearest_hit(distances: Seq<Option<Scalar>>, hit: Option<Hit>) -> bool {
    match hit {
        None => forall|j: int| 0 <= j < distances.len() ==> !in_reach(#[trigger] distances[j]),
        Some(h) => {
            &&& h.index < distances.len()
            &&& distances[h.index as int] == Some(h.distance)
            &&& in_reach(Some(h.distance))
            &&& forall|j: int|
                0 <= j < distances.len() && in_reach(#[trigger] distances[j])
                    ==> !distances[j].unwrap().less(h.distance)
            &&& forall|j: int|
                0 <= j < h.index && in_reach(#[trigger] distances[j]) ==> h.distance.less(
                    distances[j].unwrap(),
                )
        },
    }
}

/// Of two distances along a ray, the smaller one that lies in front of the
/// ray's origin, if one does.
pub open spec fn positive_root(t0: Scalar, t1: Scalar) -> Option<Scalar> {
    if t0.positive() && t1.positive() {
        if t1.less(t0) {
            Some(t1)
        } else {
            Some(t0)
        }
    } else if t0.positive() {
        Some(t0)
    } else if t1.positive() {
        Some(t1)
    } else {
        None
    }
}

/// What a ray strikes first among the primitives at the given distances.
pub open spec fn hit_of(distances: Seq<Option<Scalar>>) -> Option<Hit> {
    choose|hit: Option<Hit>| is_nearest_hit(distances, hit)
}

/// Of the two places where a ray meets a sphere, the nearer one in front of
/// the ray's origin, if there is one.
pub fn nearest_positive_root(t0: Scalar, t1: Scalar) -> (root: Option<Scalar>)
    ensures
        root == positive_root(t0, t1),
        root is None <==> !t0.positive() && !t1.positive(),
        root matches Some(t) ==> {
            &&& t == t0 || t == t1
            &&& t.positive()
            &&& t0.positive() ==> !t0.less(t)
            &&& t1.positive() ==> !t1.less(t)
        },
{
    let p0 = t0.is_positive();
    let p1 = t1.is_positive();
    if p0 && p1 {
        if t1.lt(t0) {
            Some(t1)
        } else {
            Some(t0)
        }
    } else if p0 {
        Some(t0)
    } else if p1 {
        Some(t1)
    } else {
        None
    }
}

/// Walks the distances at which a ray strikes each primitive and keeps the
/// nearest. A later primitive replaces an earlier one only if it is strictly
/// nearer, so of two at the same distance the earlier one is reported.
pub fn nearest_hit(distances: &Vec<Option<Scalar>>) -> (hit: Option<Hit>)
    ensures
        is_nearest_hit(distances@, hit),
        hit == hit_of(distances@),
{
    let far = Scalar { bits: FAR_BITS };
    let mut best: Option<Hit> = None;
    let mut i: usize = 0;
    while i < distances.len()
        invariant
            i <= distances.len(),
            far == (Scalar { bits: FAR_BITS }),
            is_nearest_hit(distances@.take(i as int), best),
        decreases distances.len() - i,
    {
        let ghost seen = distances@.take(i as int);
        let ghost next = distances@.take(i + 1);
        assert(forall|j: int| 0 <= j < i ==> next[j] == seen[j]);
        assert(next[i as int] == distances@[i as int]);
        match distances[i] {
            Some(t) => {
                let limit = match best {
                    Some(h) => h.distance,
                    None => far,
                };
                if t.is_positive() && t.lt(limit) {
                    best = Some(Hit { index: i, distance: t });
                }
            },
            None => {},
        }
        i = i + 1;
    }
    assert(distances@.take(i as int) == distances@);
    proof {
        lemma_nearest_hit_is_unique(distances@, best, hit_of(distances@));
    }
    best
}

/// Whether the light is cut off from a struck primitive: the ray towards the
/// light strikes something, and that something is another primitive.
pub fn is_occluded(primary: usize, towards_light: Option<Hit>) -> (occluded: bool)
    ensures
        occluded <==> (towards_light matches Some(h) && h.index != primary),
{
    match towards_light {
        Some(h) => h.index != primary,
        None => false,
    }
}

/// The bytes of a pixel: black where the ray strikes nothing or the light is
/// cut off, else the lit color of what it strikes, each channel cut down to
/// a byte; always opaque.
pub open spec fn pixel_of(
    primary: Option<Hit>,
    towards_light: Option<Hit>,
    lit: (Scalar, Scalar, Scalar),
) -> Seq<u8> {
    match primary {
        Some(h) if !(towards_light matches Some(s) && s.index != h.index) => seq![
            lit.0.byte(),
            lit.1.byte(),
            lit.2.byte(),
            OPAQUE,
        ],
        _ => seq![0u8, 0u8, 0u8, OPAQUE],
    }
}

/// Settles the color of a pixel from what its ray strikes, what the ray
/// from there towards the light strikes, and the color that the light gives
/// the struck point.
pub fn pixel_color(
    primary: Option<Hit>,
    towards_light: Option<Hit>,
    lit: (Scalar, Scalar, Scalar),
) -> (pixel: [u8; 4])
    ensures
        pixel@ == pixel_of(primary, towards_light, lit),
{
    let pixel: [u8; 4] = match primary {
        Some(h) => {
            if is_occluded(h.index, towards_light) {
                [0, 0, 0, OPAQUE]
            } else {
                [lit.0.to_byte(), lit.1.to_byte(), lit.2.to_byte(), OPAQUE]
            }
        },
        None => [0, 0, 0, OPAQUE],
    };
    assert(pixel@ =~= pixel_of(primary, towards_light, lit));
    pixel
}

/// The column and the row of the pixel with the given index in an image of
/// the given width: rows follow one another, each from left to right.
pub fn pixel_position(index: usize, width: u16) -> (at: (u16, usize))
    requires
        width > 0,
    ensures
        at.0 < width,
        at.1 * width + at.0 == index,
{
    let x: usize = index % (width as usize);
    let y: usize = index / (width as usize);
    assert(y * width + x == index) by (nonlinear_arith)
        requires
            width > 0,
            x == index % (width as usize),
            y == index / (width as usize),
    ;
    (x as u16, y)
}

/// The image with one pixel replaced.
pub open spec fn with_pixel(image: Seq<u8>, index: int, pixel: Seq<u8>) -> Seq<u8> {
    image.update(PIXEL_LEN * index, pixel[0]).update(PIXEL_LEN * index + 1, pixel[1]).update(
        PIXEL_LEN * index + 2,
        pixel[2],
    ).update(PIXEL_LEN * index + 3, pixel[3])
}

/// Puts a pixel into its slot of the output image and touches no other.
pub fn write_pixel(output: &mut Vec<u8>, index: usize, pixel: [u8; 4])
    requires
        index < old(output)@.len() / PIXEL_LEN as nat,
    ensures
        final(output)@ == with_pixel(old(output)@, index as int, pixel@),
{
    let len: usize = output.len();
    assert(PIXEL_LEN * index + 3 < len);
    let base: usize = index * PIXEL_LEN;
    output[base] = pixel[0];
    output[base + 1] = pixel[1];
    output[base + 2] = pixel[2];
    output[base + 3] = pixel[3];
}

/// There is one answer to what a ray strikes first: two hits that both fit
/// the distances are the same hit.
pub proof fn lemma_nearest_hit_is_unique(
    distances: Seq<Option<Scalar>>,
    a: Option<Hit>,
    b: Option<Hit>,
)
    requires
        is_nearest_hit(distances, a),
        is_nearest_hit(distances, b),
    ensures
        a == b,
{
    match (a, b) {
        (Some(x), Some(y)) => {
            assert(in_reach(distances[x.index as int]));
            assert(in_reach(distances[y.index as int]));
            if x.index < y.index {
                assert(y.distance.less(x.distance));
            }
            if y.index < x.index {
                assert(x.distance.less(y.distance));
            }
        },
        (Some(x), None) => {
            assert(in_reach(distances[x.index as int]));
        },
        (None, Some(y)) => {
            assert(in_reach(distances[y.index as int]));
        },
        (None, None) => {},
    }
}

/// Where two primitives are struck at the same distance, the one reported
/// is not the later one.
pub proof fn lemma_earlier_wins_a_tie(distances: Seq<Option<Scalar>>, hit: Hit, other: int)
    requires
        is_nearest_hit(distances, Some(hit)),
        0 <= other < distances.len(),
        in_reach(distances[other]),
        distances[other].unwrap().units() == hit.distance.units(),
    ensures
        hit.index <= other,
{
    if other < hit.index {
        assert(hit.distance.less(distances[other].unwrap()));
    }
}

/// Every pixel has a slot of its own: writing one pixel keeps the length
/// of the image and every other pixel, and two writes to different pixels
/// come to the same image in either order.
pub proof fn lemma_pixel_writes_are_independent(
    image: Seq<u8>,
    i: int,
    p: Seq<u8>,
    j: int,
    q: Seq<u8>,
)
    requires
        0 <= i < image.len() / PIXEL_LEN as nat,
        0 <= j < image.len() / PIXEL_LEN as nat,
        i != j,
        p.len() == PIXEL_LEN,
        q.len() == PIXEL_LEN,
    ensures
        with_pixel(image, i, p).len() == image.len(),
        with_pixel(image, i, p).subrange(PIXEL_LEN * i, PIXEL_LEN * i + 4) == p,
        forall|at: int|
            0 <= at < image.len() && !(PIXEL_LEN * i <= at < PIXEL_LEN * i + 4)
                ==> #[trigger] with_pixel(image, i, p)[at] == image[at],
        with_pixel(with_pixel(image, i, p), j, q) == with_pixel(with_pixel(image, j, q), i, p),
{
    assert(with_pixel(with_pixel(image, i, p), j, q) =~= with_pixel(
        with_pixel(image, j, q),
        i,
        p,
    ));
}

} // verus!
