use raytracer::camera::{Camera, CAMERA_LEN};
use raytracer::cframe::{CFrame, CFRAME_LEN};
use raytracer::scalar::Scalar;

fn s(x: f32) -> Scalar {
    Scalar::from_bits(x.to_bits())
}

fn numbers(wire: &[Scalar]) -> Vec<f32> {
    wire.iter().map(|v| f32::from_bits(v.to_bits())).collect()
}

#[test]
fn cframe_new_keeps_every_component() {
    let c = CFrame::new(
        s(1.0),
        s(2.0),
        s(3.0),
        s(4.0),
        s(5.0),
        s(6.0),
        s(7.0),
        s(8.0),
        s(9.0),
        s(10.0),
        s(11.0),
        s(12.0),
    );
    assert_eq!(c.x, s(1.0));
    assert_eq!(c.y, s(2.0));
    assert_eq!(c.z, s(3.0));
    assert_eq!(c.r00, s(4.0));
    assert_eq!(c.r01, s(5.0));
    assert_eq!(c.r02, s(6.0));
    assert_eq!(c.r10, s(7.0));
    assert_eq!(c.r11, s(8.0));
    assert_eq!(c.r12, s(9.0));
    assert_eq!(c.r20, s(10.0));
    assert_eq!(c.r21, s(11.0));
    assert_eq!(c.r22, s(12.0));
}

#[test]
fn cframe_goes_on_the_wire_position_first_then_rows() {
    let mut c = CFrame::new(
        s(1.0),
        s(2.0),
        s(3.0),
        s(4.0),
        s(5.0),
        s(6.0),
        s(7.0),
        s(8.0),
        s(9.0),
        s(10.0),
        s(11.0),
        s(12.0),
    );
    let wire = c.to_vec();
    assert_eq!(wire.len(), CFRAME_LEN);
    assert_eq!(
        numbers(&wire),
        vec![1.0, 2.0, 3.0, 4.0, 5.0, 6.0, 7.0, 8.0, 9.0, 10.0, 11.0, 12.0]
    );
    assert_eq!(c.to_vec(), wire);
}

#[test]
fn cframe_from_a_position_turns_nothing() {
    let mut c = CFrame::new_from_pos(s(-10.0), s(15.0), s(-70.0));
    assert_eq!(
        numbers(&c.to_vec()),
        vec![-10.0, 15.0, -70.0, 1.0, 0.0, 0.0, 0.0, 1.0, 0.0, 0.0, 0.0, 1.0]
    );
}

#[test]
fn cframe_default_is_the_origin_turned_nowhere() {
    let mut c = CFrame::default();
    assert_eq!(
        numbers(&c.to_vec()),
        vec![0.0, 0.0, 0.0, 1.0, 0.0, 0.0, 0.0, 1.0, 0.0, 0.0, 0.0, 1.0]
    );
    assert_eq!(c, CFrame::new_from_pos(s(0.0), s(0.0), s(0.0)));
    assert_eq!(c.x.to_bits(), 0);
}

#[test]
fn cframe_is_copied_by_value() {
    let a = CFrame::new_from_pos(s(1.0), s(2.0), s(3.0));
    let mut b = a;
    b.x = s(9.0);
    assert_eq!(a.x, s(1.0));
    assert_eq!(b.x, s(9.0));
    assert_eq!(b.r11, a.r11);
}

#[test]
fn camera_keeps_its_field_of_view_and_focal_length() {
    let mut camera = Camera::new(s(90.0), s(0.1));
    assert_eq!(camera.get_fov(), s(90.0));
    assert_eq!(camera.get_focal_length(), s(0.1));
    assert_eq!(camera.cframe, CFrame::default());
}

#[test]
fn camera_goes_on_the_wire_as_its_cframe_then_its_field_of_view() {
    let mut camera = Camera::new(s(90.0), s(0.1));
    camera.cframe = CFrame::new(
        s(1.0),
        s(2.0),
        s(3.0),
        s(4.0),
        s(5.0),
        s(6.0),
        s(7.0),
        s(8.0),
        s(9.0),
        s(10.0),
        s(11.0),
        s(12.0),
    );
    let wire = camera.to_vec();
    assert_eq!(wire.len(), CAMERA_LEN);
    assert_eq!(
        numbers(&wire),
        vec![1.0, 2.0, 3.0, 4.0, 5.0, 6.0, 7.0, 8.0, 9.0, 10.0, 11.0, 12.0, 90.0]
    );
}

#[test]
fn camera_default_has_neither_view_nor_length() {
    let mut camera = Camera::default();
    assert_eq!(camera.get_fov().to_bits(), 0);
    assert_eq!(camera.get_focal_length().to_bits(), 0);
    assert_eq!(
        numbers(&camera.to_vec()),
        vec![0.0, 0.0, 0.0, 1.0, 0.0, 0.0, 0.0, 1.0, 0.0, 0.0, 0.0, 1.0, 0.0]
    );
}

#[test]
fn camera_transform_is_replaced_wholesale() {
    let mut camera = Camera::new(s(60.0), s(1.0));
    camera.cframe = CFrame::new_from_pos(s(3.0), s(4.0), s(5.0));
    assert_eq!(numbers(&camera.to_vec())[..3], [3.0, 4.0, 5.0]);
    assert_eq!(camera.get_fov(), s(60.0));
    assert_eq!(camera.get_focal_length(), s(1.0));
}

#[test]
fn a_camera_is_put_where_a_transform_says() {
    let mut camera = Camera::new(s(60.0), s(1.0));
    assert_eq!(camera.get_cframe(), CFrame::default());
    let place = CFrame::new(
        s(1.0),
        s(2.0),
        s(3.0),
        s(0.0),
        s(-1.0),
        s(0.0),
        s(1.0),
        s(0.0),
        s(0.0),
        s(0.0),
        s(0.0),
        s(1.0),
    );
    camera.set_cframe(place);
    assert_eq!(camera.get_cframe(), place);
    assert_eq!(camera.cframe, place);
    assert_eq!(camera.get_fov(), s(60.0));
    assert_eq!(camera.get_focal_length(), s(1.0));
    assert_eq!(numbers(&camera.to_vec())[..12], numbers(&place.clone().to_vec()));
}
