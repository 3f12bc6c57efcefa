use raytracer::camera::Camera;
use raytracer::cframe::{Angle, CFrame, Positionable};
use raytracer::frame::FrameJob;
use raytracer::intersect::{intersect_objects, intersect_sphere, solve_quadratic};
use raytracer::kernel::{write_pixel, Hit};
use raytracer::light::DirectionLight;
use raytracer::project::{pixel_deflections, pixel_ray, projection_plane, view_angles};
use raytracer::render::Renderable;
use raytracer::renderer::{DispatchOutcome, Renderer, SetupOutcome};
use raytracer::scalar::Scalar;
use raytracer::shade::{calculate_normal_vector, render_pixel, render_rays};
use raytracer::sphere::{Primitive, Sphere};
use raytracer::vector::Vector;
use raytracer::world::World;

fn s(x: f32) -> Scalar {
    Scalar::from_bits(x.to_bits())
}

fn n(x: Scalar) -> f32 {
    f32::from_bits(x.to_bits())
}

fn numbers(wire: &[Scalar]) -> Vec<f32> {
    wire.iter().map(|v| n(*v)).collect()
}

fn vector(x: f32, y: f32, z: f32) -> Vector {
    Vector::new(s(x), s(y), s(z))
}

/// The angle, with the sine and the cosine that the machine has for it.
fn angle(radians: f32) -> Angle {
    Angle { sin: s(radians.sin()), cos: s(radians.cos()) }
}

/// The projection plane of a frame, with the machine's sines.
fn plane_of(job: &FrameJob) -> (Scalar, Scalar) {
    let (half, complement) = view_angles(job.fov);
    projection_plane(job, s(n(half).sin()), s(n(complement).sin()))
}

/// The pixel with the given index, with the machine's arcsines, sines and
/// cosines.
fn pixel_of(job: &FrameJob, plane: (Scalar, Scalar), index: usize) -> [u8; 4] {
    assert!(job.is_complete());
    assert!(index < usize::from(job.width) * usize::from(job.height));
    let (up_down, left_right) = pixel_deflections(job, plane, index);
    let ray = pixel_ray(job, angle(n(up_down).asin()), angle(n(left_right).asin()));
    render_pixel(job, &ray)
}

fn sphere(radius: f32, at: (f32, f32, f32), color: (u8, u8, u8)) -> Primitive {
    let mut sphere = Sphere::new(s(radius));
    sphere.set_position(s(at.0), s(at.1), s(at.2));
    sphere.set_color(color.0, color.1, color.2);
    Primitive::Sphere(sphere)
}

fn frame(
    width: u32,
    height: u32,
    primitives: Vec<Primitive>,
    light: Option<DirectionLight>,
) -> (Renderer, FrameJob) {
    let mut world = World::new();
    for primitive in primitives {
        world.push_renderable(primitive);
    }
    let mut renderer = Renderer::new(width, height);
    renderer.init(SetupOutcome::Ready).unwrap();
    let (direction, color) = match light {
        Some(mut light) => (light.get_direction(), light.get_color()),
        None => (
            world.get_direction_light_direction_vec(),
            world.get_direction_light_color_vec(),
        ),
    };
    let job = renderer
        .render_frame(
            Camera::new(s(90.0), s(0.1)),
            world.get_render_objects(),
            direction,
            color,
        )
        .unwrap();
    assert!(job.is_complete());
    (renderer, job)
}

fn standard_scene() -> Vec<Primitive> {
    vec![
        sphere(10.0, (-10.0, 15.0, -70.0), (0xff, 0, 0)),
        sphere(10.0, (15.0, 5.0, -70.0), (0, 0xff, 0)),
        sphere(100000.0, (0.0, -100002.0, 0.0), (0, 0, 0xff)),
    ]
}

/// A ray from `origin` that travels along `travel`.
fn ray(origin: [f32; 3], travel: [f32; 3]) -> CFrame {
    CFrame::new(
        s(origin[0]),
        s(origin[1]),
        s(origin[2]),
        s(0.0),
        s(0.0),
        s(-travel[0]),
        s(0.0),
        s(0.0),
        s(-travel[1]),
        s(0.0),
        s(0.0),
        s(-travel[2]),
    )
}

// The same arithmetic, done by the machine.

fn machine_rotation(alpha: f32, beta: f32, gamma: f32) -> [f32; 9] {
    let (sa, ca) = (alpha.sin(), alpha.cos());
    let (sb, cb) = (beta.sin(), beta.cos());
    let (sg, cg) = (gamma.sin(), gamma.cos());
    [
        cb * cg,
        sa * sb * cg - ca * sg,
        ca * sb * cg + sa * sg,
        cb * sg,
        sa * sb * sg + ca * cg,
        ca * sb * sg - sa * cg,
        -sb,
        sa * cb,
        ca * cb,
    ]
}

fn machine_ray_rotation(camera: &[f32], local: &[f32; 9]) -> [f32; 9] {
    let mut out = [0.0f32; 9];
    for row in 0..3 {
        for col in 0..3 {
            out[3 * row + col] = camera[3 * row] * local[col]
                + camera[3 * row + 1] * local[3 + col]
                + camera[3 * row + 2] * local[6 + col];
        }
    }
    out
}

fn machine_quadratic(a: f32, b: f32, c: f32) -> Option<(f32, f32)> {
    let discr = b * b - 4.0 * a * c;
    if discr < 0.0 {
        None
    } else if discr == 0.0 {
        let x = -0.5 * b / a;
        Some((x, x))
    } else {
        let q = if b > 0.0 { -0.5 * (b + discr.sqrt()) } else { -0.5 * (b - discr.sqrt()) };
        Some((q / a, c / q))
    }
}

fn machine_sphere(center: &[f32], radius: f32, ray: &[f32; 12]) -> f32 {
    let l = [center[0] - ray[0], center[1] - ray[1], center[2] - ray[2]];
    let a = ray[5] * ray[5] + ray[8] * ray[8] + ray[11] * ray[11];
    let b = 2.0 * (ray[5] * l[0] + ray[8] * l[1] + ray[11] * l[2]);
    let c = l[0] * l[0] + l[1] * l[1] + l[2] * l[2] - radius * radius;
    match machine_quadratic(a, b, c) {
        Some((t0, t1)) if t0 > 0.0 && t1 > 0.0 => t0.min(t1),
        Some((t0, _)) if t0 > 0.0 => t0,
        Some((_, t1)) if t1 > 0.0 => t1,
        _ => -1.0,
    }
}

fn machine_objects(job: &FrameJob, ray: &[f32; 12]) -> (i64, f32) {
    let cframes = numbers(&job.object_cframes);
    let props = numbers(&job.object_props);
    let size = usize::from(job.prop_size);
    let mut t = 9999999.0f32;
    let mut found = -1i64;
    for i in 0..job.object_count as usize {
        let local = machine_sphere(&cframes[12 * i..12 * i + 3], props[size * i], ray);
        if local > 0.0 && local < t {
            t = local;
            found = i as i64;
        }
    }
    (found, t)
}

fn machine_ray(job: &FrameJob, ray: &[f32; 12]) -> [u8; 4] {
    let (found, t) = machine_objects(job, ray);
    if found < 0 {
        return [0, 0, 0, 255];
    }
    let index = found as usize;
    let center = numbers(&job.object_cframes[12 * index..12 * index + 3]);
    let edge = [ray[0] - ray[5] * t, ray[1] - ray[8] * t, ray[2] - ray[11] * t];
    let raw = [edge[0] - center[0], edge[1] - center[1], edge[2] - center[2]];
    let size = (raw[0] * raw[0] + raw[1] * raw[1] + raw[2] * raw[2]).sqrt();
    let normal = [raw[0] / size, raw[1] / size, raw[2] / size];
    let light = numbers(&job.light_direction);
    let towards_light = [
        edge[0] + normal[0] * 0.01,
        edge[1] + normal[1] * 0.01,
        edge[2] + normal[2] * 0.01,
        0.0,
        0.0,
        light[0],
        0.0,
        0.0,
        light[1],
        0.0,
        0.0,
        light[2],
    ];
    let (shadow, _) = machine_objects(job, &towards_light);
    if shadow >= 0 && shadow != found {
        return [0, 0, 0, 255];
    }
    let diffuse =
        (normal[0] * -light[0] + normal[1] * -light[1] + normal[2] * -light[2]).max(0.0);
    let channel = |k: usize| {
        let lit = f32::from(job.light_color[k]) * diffuse / 255.0;
        (f32::from(job.object_colors[3 * index + k]) * lit) as u8
    };
    [channel(0), channel(1), channel(2), 255]
}

fn machine_plane(job: &FrameJob) -> (f32, f32) {
    let rad = n(job.fov) / 180.0 * std::f32::consts::PI;
    let width = (n(job.focal_length) * (rad / 2.0).sin())
        / ((std::f32::consts::PI / 2.0) - (rad / 2.0)).sin();
    (width, width * (f32::from(job.height) / f32::from(job.width)))
}

fn machine_pixel(job: &FrameJob, index: usize) -> [u8; 4] {
    let (plane_width, plane_height) = machine_plane(job);
    let focal_length = n(job.focal_length);
    let x = index % usize::from(job.width);
    let y = index / usize::from(job.width);
    let cam_x = -(plane_width / 2.0) + (x as f32 / f32::from(job.width)) * plane_width;
    let cam_y = -(plane_height / 2.0) + (y as f32 / f32::from(job.height)) * plane_height;
    let alpha = (cam_y / (focal_length * focal_length + cam_y * cam_y).sqrt()).asin();
    let beta = (cam_x / (focal_length * focal_length + cam_x * cam_x).sqrt()).asin();
    let camera = numbers(&job.camera);
    let rotation = machine_ray_rotation(&camera[3..12], &machine_rotation(alpha, beta, 0.0));
    let mut ray = [0.0f32; 12];
    ray[..3].copy_from_slice(&camera[..3]);
    ray[3..].copy_from_slice(&rotation);
    machine_ray(job, &ray)
}

#[test]
fn a_turned_transform_stays_a_rotation() {
    let mut cframe = CFrame::default();
    let mut step_angle = 0.05f32;
    for step in 0..200 {
        cframe.multiply_angles(
            angle(step_angle),
            angle(-1.7 * step_angle),
            angle(0.3 + step_angle),
        );
        step_angle = (step_angle * 1.37 + 0.11) % 3.0;
        let mut wire = cframe.to_vec();
        let r = numbers(&wire.split_off(3));
        for i in 0..3 {
            for j in 0..3 {
                let dot: f32 = (0..3).map(|k| r[3 * k + i] * r[3 * k + j]).sum();
                let expected = if i == j { 1.0 } else { 0.0 };
                assert!((dot - expected).abs() < 1.0e-4, "step {step}: columns {i} and {j}");
            }
        }
        let det = r[0] * (r[4] * r[8] - r[5] * r[7]) - r[1] * (r[3] * r[8] - r[5] * r[6])
            + r[2] * (r[3] * r[7] - r[4] * r[6]);
        assert!((det - 1.0).abs() < 1.0e-4, "step {step}: determinant {det}");
        assert_eq!(numbers(&wire), vec![0.0, 0.0, 0.0]);
    }
}

#[test]
fn a_turn_is_a_rotation_for_many_angles() {
    let mut state: u64 = 0x2545_f491_4f6c_dd1d;
    let mut next = || {
        state = state
            .wrapping_mul(6364136223846793005)
            .wrapping_add(1442695040888963407);
        ((state >> 40) as f32 / 16_777_216.0 - 0.5) * 20.0
    };
    for _ in 0..2000 {
        let (alpha, beta, gamma) = (next(), next(), next());
        let mut turn = CFrame::from_angles(angle(alpha), angle(beta), angle(gamma));
        assert_eq!(
            numbers(&turn.to_vec())[3..],
            machine_rotation(alpha, beta, gamma),
            "{alpha} {beta} {gamma}"
        );
        let r = machine_rotation(alpha, beta, gamma);
        for i in 0..3 {
            for j in 0..3 {
                let dot: f32 = (0..3).map(|k| r[3 * k + i] * r[3 * k + j]).sum();
                let expected = if i == j { 1.0 } else { 0.0 };
                assert!((dot - expected).abs() < 1.0e-4);
            }
        }
    }
}

#[test]
fn moving_along_its_axes_goes_by_the_columns() {
    let mut cframe = CFrame::new_from_pos(s(1.0), s(2.0), s(3.0));
    cframe.multiply_vector(s(0.5), s(-0.25), s(4.0));
    assert_eq!(numbers(&cframe.to_vec())[..3], [1.5, 1.75, 7.0]);
    // Turned a quarter about the third axis, the first axis, which is the
    // first column, points along the second coordinate.
    let mut turned = CFrame::new(
        s(1.0),
        s(2.0),
        s(3.0),
        s(0.0),
        s(-1.0),
        s(0.0),
        s(1.0),
        s(0.0),
        s(0.0),
        s(0.0),
        s(0.0),
        s(1.0),
    );
    turned.multiply_vector(s(1.0), s(0.0), s(0.0));
    assert_eq!(numbers(&turned.to_vec())[..3], [1.0, 3.0, 3.0]);
    assert_eq!(numbers(&turned.to_vec())[3..], [0.0, -1.0, 0.0, 1.0, 0.0, 0.0, 0.0, 0.0, 1.0]);
    turned.multiply_vector(s(0.0), s(2.0), s(0.5));
    assert_eq!(numbers(&turned.to_vec())[..3], [-1.0, 3.0, 3.5]);
}

#[test]
fn moving_and_turning_agree_with_the_machine() {
    let mut cframe = CFrame::new_from_pos(s(0.3), s(-7.25), s(11.0));
    let mut position = [0.3f32, -7.25, 11.0];
    let mut r = [1.0f32, 0.0, 0.0, 0.0, 1.0, 0.0, 0.0, 0.0, 1.0];
    let mut a = 0.013f32;
    for _ in 0..300 {
        let (x, y, z) = (a * 3.0, -a, 0.3 / (a + 1.0));
        cframe.multiply_vector(s(x), s(y), s(z));
        position = [
            r[0] * x + r[1] * y + r[2] * z + position[0],
            r[3] * x + r[4] * y + r[5] * z + position[1],
            r[6] * x + r[7] * y + r[8] * z + position[2],
        ];
        cframe.multiply_angles(angle(a), angle(2.0 * a), angle(-a));
        let m = machine_rotation(a, 2.0 * a, -a);
        let mut product = [0.0f32; 9];
        for row in 0..3 {
            for col in 0..3 {
                product[3 * row + col] = r[3 * row] * m[col]
                    + r[3 * row + 1] * m[3 + col]
                    + r[3 * row + 2] * m[6 + col];
            }
        }
        r = product;
        let wire = numbers(&cframe.to_vec());
        assert_eq!(wire[..3], position);
        assert_eq!(wire[3..], r);
        a = (a * 1.7 + 0.05) % 1.5;
    }
}

#[test]
fn at_ninety_degrees_the_plane_is_as_wide_as_the_focal_length() {
    let (_, job) = frame(1280, 720, Vec::new(), None);
    let (plane_width, plane_height) = plane_of(&job);
    assert!((n(plane_width) - 0.1).abs() < 1.0e-5);
    assert!((n(plane_height) - 0.05625).abs() < 1.0e-5);
    assert_eq!((n(plane_width), n(plane_height)), machine_plane(&job));
    // With the two sines the same, the width is the focal length but for
    // the rounding of a product and of a quotient.
    let same = projection_plane(&job, s(0.70710677), s(0.70710677));
    assert_eq!(same.0, s(0.1f32 * 0.70710677 / 0.70710677));
    assert!((n(same.0) - 0.1).abs() < 1.0e-7);
    assert_eq!(same.1, s(n(same.0) * (720.0 / 1280.0)));
    let halves = projection_plane(&job, s(0.5), s(0.5));
    assert_eq!(halves.0, s(0.1));
}

#[test]
fn a_square_view_has_a_plane_as_wide_as_the_focal_length() {
    let (_, job) = frame(1280, 720, Vec::new(), None);
    let mut state: u64 = 0x6a09_e667_f3bc_c908;
    let mut next = || {
        state = state
            .wrapping_mul(6364136223846793005)
            .wrapping_add(1442695040888963407);
        (state >> 32) as u32
    };
    let mut job = job;
    for _ in 0..100_000 {
        let focal_length = f32::from_bits(next() % 0x7f00_0000 + 1);
        let sine = 0.5 + (next() >> 8) as f32 / 33_554_432.0;
        job.focal_length = s(focal_length);
        let (plane_width, _) = projection_plane(&job, s(sine), s(sine));
        assert_eq!(plane_width, s(focal_length * sine / sine));
        let wide = f64::from(n(plane_width));
        let focal = f64::from(focal_length);
        assert!((wide - focal).abs() <= 1.0e-5 * focal.max(1.0), "{focal_length} {sine}");
    }
    let (half, complement) = view_angles(s(90.0));
    assert_eq!(half, complement);
}

#[test]
fn the_view_angles_are_half_the_view_and_what_it_lacks_of_a_quarter_turn() {
    let (half, complement) = view_angles(s(90.0));
    assert_eq!(half, s(std::f32::consts::FRAC_PI_4));
    assert_eq!(complement, s(std::f32::consts::FRAC_PI_4));
    let (half, complement) = view_angles(s(60.0));
    assert_eq!(half, s(60.0f32 / 180.0 * std::f32::consts::PI / 2.0));
    assert_eq!(
        complement,
        s(std::f32::consts::PI / 2.0 - 60.0f32 / 180.0 * std::f32::consts::PI / 2.0)
    );
}

#[test]
fn a_pixel_lies_where_its_column_and_row_put_it() {
    let (_, job) = frame(1280, 720, Vec::new(), None);
    let plane = plane_of(&job);
    let (machine_width, machine_height) = machine_plane(&job);
    for (x, y) in [(0usize, 0usize), (640, 360), (1279, 719), (17, 333), (1000, 2)] {
        let (up_down, left_right) = pixel_deflections(&job, plane, y * 1280 + x);
        let cam_x = -(machine_width / 2.0) + (x as f32 / 1280.0) * machine_width;
        let cam_y = -(machine_height / 2.0) + (y as f32 / 720.0) * machine_height;
        assert_eq!(up_down, s(cam_y / (0.1f32 * 0.1 + cam_y * cam_y).sqrt()), "{x},{y}");
        assert_eq!(left_right, s(cam_x / (0.1f32 * 0.1 + cam_x * cam_x).sqrt()), "{x},{y}");
    }
    let (up_down, left_right) = pixel_deflections(&job, plane, 360 * 1280 + 640);
    assert_eq!((n(up_down), n(left_right)), (0.0, 0.0));
}

#[test]
fn the_ray_through_the_middle_looks_where_the_camera_looks() {
    let (_, job) = frame(1280, 720, Vec::new(), None);
    let mut middle = pixel_ray(&job, angle(0.0), angle(0.0));
    assert_eq!(
        numbers(&middle.to_vec()),
        vec![0.0, 0.0, 0.0, 1.0, 0.0, 0.0, 0.0, 1.0, 0.0, 0.0, 0.0, 1.0]
    );
    let mut turned = pixel_ray(&job, angle(0.25), angle(-0.5));
    let camera = numbers(&job.camera);
    assert_eq!(
        numbers(&turned.to_vec())[3..],
        machine_ray_rotation(&camera[3..12], &machine_rotation(0.25, -0.5, 0.0))
    );
}

#[test]
fn a_sphere_met_head_on_is_struck_at_its_near_side() {
    let head_on = ray([0.0, 0.0, -10.0], [0.0, 0.0, 1.0]);
    assert_eq!(intersect_sphere(vector(0.0, 0.0, 0.0), s(5.0), &head_on), Some(s(5.0)));
    let (_, job) = frame(1, 1, vec![sphere(5.0, (0.0, 0.0, 0.0), (255, 0, 0))], None);
    assert_eq!(intersect_objects(&job, &head_on), Some(Hit { index: 0, distance: s(5.0) }));
}

#[test]
fn a_quadratic_has_two_one_or_no_solutions() {
    assert_eq!(solve_quadratic(s(1.0), s(-20.0), s(75.0)), Some((s(15.0), s(5.0))));
    assert_eq!(solve_quadratic(s(1.0), s(20.0), s(75.0)), Some((s(-15.0), s(-5.0))));
    assert_eq!(solve_quadratic(s(1.0), s(-4.0), s(4.0)), Some((s(2.0), s(2.0))));
    assert_eq!(solve_quadratic(s(1.0), s(0.0), s(75.0)), None);
    assert_eq!(solve_quadratic(s(2.0), s(0.0), s(-8.0)), Some((s(2.0), s(-2.0))));
}

#[test]
fn a_ray_that_passes_a_sphere_by_leaves_the_background() {
    let passing = ray([0.0, 0.0, -10.0], [1.0, 0.0, 0.0]);
    assert_eq!(intersect_sphere(vector(0.0, 0.0, 0.0), s(5.0), &passing), None);
    let (_, job) = frame(1, 1, vec![sphere(5.0, (0.0, 0.0, 0.0), (255, 0, 0))], None);
    assert_eq!(intersect_objects(&job, &passing), None);
    assert_eq!(render_pixel(&job, &passing), [0, 0, 0, 255]);
}

#[test]
fn a_sphere_behind_the_ray_is_not_struck() {
    let leaving = ray([0.0, 0.0, -10.0], [0.0, 0.0, -1.0]);
    assert_eq!(intersect_sphere(vector(0.0, 0.0, 0.0), s(5.0), &leaving), None);
}

#[test]
fn from_inside_a_sphere_the_far_side_is_struck() {
    let inside = ray([0.0, 0.0, 0.0], [0.0, 0.0, 1.0]);
    assert_eq!(intersect_sphere(vector(0.0, 0.0, 1.0), s(5.0), &inside), Some(s(6.0)));
}

#[test]
fn of_two_spheres_in_one_place_the_first_is_reported() {
    let (_, job) = frame(
        1,
        1,
        vec![
            sphere(5.0, (0.0, 0.0, 0.0), (255, 0, 0)),
            sphere(5.0, (0.0, 0.0, 0.0), (0, 255, 0)),
        ],
        None,
    );
    let head_on = ray([0.0, 0.0, -10.0], [0.0, 0.0, 1.0]);
    assert_eq!(intersect_objects(&job, &head_on), Some(Hit { index: 0, distance: s(5.0) }));
    let (_, swapped) = frame(
        1,
        1,
        vec![
            sphere(5.0, (0.0, 0.0, 30.0), (0, 0, 255)),
            sphere(5.0, (0.0, 0.0, 0.0), (0, 255, 0)),
            sphere(5.0, (0.0, 0.0, 0.0), (255, 0, 0)),
        ],
        None,
    );
    assert_eq!(intersect_objects(&swapped, &head_on), Some(Hit { index: 1, distance: s(5.0) }));
}

#[test]
fn the_normal_points_away_from_the_center() {
    let (_, job) = frame(1, 1, vec![sphere(5.0, (1.0, 2.0, 3.0), (255, 0, 0))], None);
    assert_eq!(calculate_normal_vector(&job, 0, vector(1.0, 7.0, 3.0)), vector(0.0, 1.0, 0.0));
    assert_eq!(calculate_normal_vector(&job, 0, vector(-3.0, 2.0, 0.0)), vector(-0.8, 0.0, -0.6));
}

#[test]
fn a_sphere_between_a_point_and_the_light_leaves_it_in_shadow() {
    let down = || DirectionLight::new(vec![s(0.0), s(-1.0), s(0.0)], vec![255, 255, 255]);
    let at_the_top = ray([0.0, 8.0, 20.0], [0.0, -3.0, -20.0]);

    let (_, shadowed) = frame(
        1,
        1,
        vec![
            sphere(5.0, (0.0, 0.0, 0.0), (255, 0, 0)),
            sphere(2.0, (0.0, 12.0, 0.0), (0, 255, 0)),
        ],
        Some(down()),
    );
    assert_eq!(intersect_objects(&shadowed, &at_the_top).map(|hit| hit.index), Some(0));
    assert_eq!(render_pixel(&shadowed, &at_the_top), [0, 0, 0, 255]);

    let (_, open) = frame(1, 1, vec![sphere(5.0, (0.0, 0.0, 0.0), (255, 0, 0))], Some(down()));
    let lit = render_pixel(&open, &at_the_top);
    assert!(lit[0] > 200, "red {}", lit[0]);
    assert_eq!(lit[1..], [0, 0, 255]);
}

#[test]
fn a_sphere_does_not_shadow_itself() {
    let down = DirectionLight::new(vec![s(0.0), s(-1.0), s(0.0)], vec![255, 255, 255]);
    let (_, job) = frame(1, 1, vec![sphere(5.0, (0.0, 0.0, 0.0), (255, 0, 0))], Some(down));
    let from_above = ray([0.0, 20.0, 0.0], [0.0, -1.0, 0.0]);
    assert_eq!(render_pixel(&job, &from_above), [255, 0, 0, 255]);
    let underneath = ray([0.0, -20.0, 0.0], [0.0, 1.0, 0.0]);
    assert_eq!(render_pixel(&job, &underneath), [0, 0, 0, 255]);
}

#[test]
fn the_color_of_the_light_tints_what_it_falls_on() {
    let down = DirectionLight::new(vec![s(0.0), s(-1.0), s(0.0)], vec![255, 128, 0]);
    let (_, job) = frame(1, 1, vec![sphere(5.0, (0.0, 0.0, 0.0), (200, 200, 200))], Some(down));
    let from_above = ray([0.0, 20.0, 0.0], [0.0, -1.0, 0.0]);
    assert_eq!(render_pixel(&job, &from_above), [200, 100, 0, 255]);
}

#[test]
fn the_standard_scene_shows_each_sphere_where_it_projects() {
    let (_, job) = frame(1280, 720, standard_scene(), None);
    let plane = plane_of(&job);
    let at = |x: usize, y: usize| pixel_of(&job, plane, y * 1280 + x);
    let near = |seen: u8, expected: u8| seen.abs_diff(expected) <= 3;

    let red = at(840, 660);
    assert!(near(red[0], 126) && red[1..] == [0, 0, 255], "{red:?}");
    let green = at(380, 480);
    assert!(near(green[1], 192) && green[0] == 0 && green[2..] == [0, 255], "{green:?}");
    let ground = at(1180, 120);
    assert!(near(ground[2], 147) && ground[..2] == [0, 0] && ground[3] == 255, "{ground:?}");
    assert_eq!(at(0, 0)[..2], [0, 0]);
    assert!(at(0, 0)[2] > 0);

    for (x, y) in [(640, 360), (1260, 420), (1279, 719), (1, 719), (580, 620)] {
        assert_eq!(at(x, y), [0, 0, 0, 255], "background at {x},{y}");
    }
    // The green sphere's shadow on the ground.
    assert_eq!(at(520, 330), [0, 0, 0, 255]);
    assert!(at(560, 335)[2] > 0);

    let mut seen = [0usize; 3];
    for y in (0..720).step_by(9) {
        for x in (0..1280).step_by(16) {
            let pixel = at(x, y);
            assert_eq!(pixel, machine_pixel(&job, y * 1280 + x), "{x},{y}");
            assert_eq!(pixel[3], 255);
            assert!(pixel[..3].iter().filter(|c| **c > 0).count() <= 1, "{pixel:?}");
            for k in 0..3 {
                if pixel[k] > 0 {
                    seen[k] += 1;
                }
            }
        }
    }
    assert!(seen[0] > 50 && seen[1] > 50 && seen[2] > 500, "{seen:?}");
}

#[test]
fn a_placed_camera_sees_the_scene_from_where_it_stands() {
    let mut world = World::new();
    for primitive in standard_scene() {
        world.push_renderable(primitive);
    }
    let mut renderer = Renderer::new(64, 36);
    renderer.init(SetupOutcome::Ready).unwrap();
    let mut camera = Camera::new(s(90.0), s(0.1));
    let mut place = CFrame::new_from_pos(s(3.0), s(4.0), s(10.0));
    place.multiply_angles(angle(0.1), angle(-0.2), angle(0.05));
    place.multiply_vector(s(1.0), s(0.0), s(-2.0));
    camera.set_cframe(place);
    let job = renderer
        .render_frame(
            camera,
            world.get_render_objects(),
            world.get_direction_light_direction_vec(),
            world.get_direction_light_color_vec(),
        )
        .unwrap();
    assert!(job.is_complete());
    assert_eq!(job.eye(), place);
    let plane = plane_of(&job);
    let mut colors = [0usize; 3];
    for index in 0..64 * 36 {
        let pixel = pixel_of(&job, plane, index);
        assert_eq!(pixel, machine_pixel(&job, index), "pixel {index}");
        for k in 0..3 {
            if pixel[k] > 0 {
                colors[k] += 1;
            }
        }
    }
    assert!(colors.iter().all(|count| *count > 0), "{colors:?}");
}

#[test]
fn a_small_frame_is_rendered_as_the_machine_renders_it() {
    let (renderer, job) = frame(64, 36, standard_scene(), None);
    let plane = plane_of(&job);
    let mut image = vec![0u8; 64 * 36 * 4];
    for index in 0..64 * 36 {
        let pixel = pixel_of(&job, plane, index);
        assert_eq!(pixel, machine_pixel(&job, index), "pixel {index}");
        write_pixel(&mut image, index, pixel);
    }
    let image = renderer.finish_frame(DispatchOutcome::Completed(image)).unwrap();
    assert_eq!(image.len(), 64 * 36 * 4);
    assert!(image.chunks(4).any(|p| p[0] > 0));
    assert!(image.chunks(4).any(|p| p[1] > 0));
    assert!(image.chunks(4).any(|p| p[2] > 0));
    assert!(image.chunks(4).any(|p| p == [0, 0, 0, 255]));
}

#[test]
fn an_image_holds_its_pixels_row_by_row() {
    let (renderer, job) = frame(48, 27, standard_scene(), None);
    let plane = plane_of(&job);
    let angles: Vec<(Angle, Angle)> = (0..48 * 27)
        .map(|index| {
            let (up_down, left_right) = pixel_deflections(&job, plane, index);
            (angle(n(up_down).asin()), angle(n(left_right).asin()))
        })
        .collect();
    let image = render_rays(&job, &angles);
    assert_eq!(image.len(), 48 * 27 * 4);
    for index in 0..48 * 27 {
        assert_eq!(image[4 * index..4 * index + 4], machine_pixel(&job, index), "pixel {index}");
        assert_eq!(image[4 * index..4 * index + 4], pixel_of(&job, plane, index));
    }
    assert_eq!(renderer.finish_frame(DispatchOutcome::Completed(image.clone())), Ok(image));
    assert_eq!(render_rays(&job, &Vec::new()), Vec::<u8>::new());
}

#[test]
fn an_empty_scene_is_all_background() {
    let (renderer, job) = frame(16, 9, Vec::new(), None);
    let plane = plane_of(&job);
    let mut image = vec![0u8; 16 * 9 * 4];
    for index in 0..16 * 9 {
        write_pixel(&mut image, index, pixel_of(&job, plane, index));
    }
    let image = renderer.finish_frame(DispatchOutcome::Completed(image)).unwrap();
    for pixel in image.chunks(4) {
        assert_eq!(pixel, [0, 0, 0, 255]);
    }
}
