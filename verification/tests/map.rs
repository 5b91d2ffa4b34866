use sdf_physics::map::{MapEntry, ShapeKind};
use sdf_physics::sdf_controller::{SdfController, CAPACITY};
use sdf_physics::slots::Shape;
use sdf_physics::vector::{Vec3, Vec4};

const ONE: i32 = 65536;

fn entry(kind: ShapeKind, k: i32) -> MapEntry {
    MapEntry {
        kind,
        position: Vec3::new(k, k + 1, k + 2),
        scale: Vec3::new(ONE, 2 * ONE, 3 * ONE),
        color: Vec3::new(ONE, 0, k),
    }
}

#[test]
fn kinds_and_tags() {
    assert_eq!(ShapeKind::Implicit.tag(), 0);
    assert_eq!(ShapeKind::Sphere.tag(), ONE);
    assert_eq!(ShapeKind::Cube.tag(), 2 * ONE);
    assert_eq!(ShapeKind::from_tag(0), ShapeKind::Implicit);
    assert_eq!(ShapeKind::from_tag(ONE), ShapeKind::Sphere);
    assert_eq!(ShapeKind::from_tag(2 * ONE), ShapeKind::Cube);
    assert_eq!(ShapeKind::from_tag(3 * ONE), ShapeKind::Implicit);
}

#[test]
fn load_map_replaces_the_registry() {
    let mut sdf = SdfController::init();
    let p = Vec4::new(9, 9, 9, 0);
    for _ in 0..5 {
        sdf.new_shape(p, p, p).unwrap();
    }
    let entries = vec![entry(ShapeKind::Sphere, 10), entry(ShapeKind::Cube, 20)];
    assert_eq!(sdf.load_map(&entries), 2);
    assert_eq!(sdf.active_count(), 2);
    assert_eq!(
        sdf.shape_at(0),
        Some(Shape {
            position: Vec4::new(10, 11, 12, 0),
            properties: Vec4::new(ONE, 2 * ONE, 3 * ONE, ONE),
            color: Vec4::new(ONE, 0, 10, 0),
        })
    );
    assert_eq!(
        sdf.shape_at(1),
        Some(Shape {
            position: Vec4::new(20, 21, 22, 0),
            properties: Vec4::new(ONE, 2 * ONE, 3 * ONE, 2 * ONE),
            color: Vec4::new(ONE, 0, 20, 0),
        })
    );
    assert_eq!(sdf.shape_at(2), None);
}

#[test]
fn load_map_drops_what_does_not_fit() {
    let mut sdf = SdfController::init();
    let entries: Vec<MapEntry> = (0..CAPACITY as i32 + 7).map(|k| entry(ShapeKind::Sphere, k)).collect();
    assert_eq!(sdf.load_map(&entries), CAPACITY);
    assert_eq!(sdf.active_count(), CAPACITY);
    assert_eq!(sdf.shape_at(CAPACITY - 1).unwrap().position, Vec4::new(99, 100, 101, 0));
    assert_eq!(sdf.load_map(&vec![]), 0);
    assert_eq!(sdf.active_count(), 0);
}

#[test]
fn map_comes_back_as_it_was_loaded() {
    let mut sdf = SdfController::init();
    let entries = vec![
        entry(ShapeKind::Sphere, 10),
        entry(ShapeKind::Cube, 20),
        entry(ShapeKind::Sphere, 30),
    ];
    sdf.load_map(&entries);
    assert_eq!(sdf.map_entries(), entries);
}

#[test]
fn map_entries_leave_out_untyped_and_exempt_shapes() {
    let mut sdf = SdfController::init();
    let size = Vec4::new(ONE, ONE, ONE, ONE);
    let tint = Vec4::new(1, 2, 3, 0);
    sdf.new_shape(Vec4::new(1, 1, 1, 0), size, tint).unwrap();
    sdf.new_shape(Vec4::new(2, 2, 2, ONE), size, tint).unwrap();
    sdf.new_shape(Vec4::new(3, 3, 3, 0), Vec4::new(ONE, ONE, ONE, 0), tint).unwrap();
    sdf.new_shape(Vec4::new(4, 4, 4, 2 * ONE), size, tint).unwrap();
    sdf.new_shape(Vec4::new(5, 5, 5, ONE - 1), Vec4::new(7, 8, 9, 2 * ONE), tint).unwrap();
    sdf.new_shape(Vec4::new(6, 6, 6, 0), Vec4::new(7, 8, 9, 5 * ONE), tint).unwrap();
    sdf.remove_shape(0).unwrap();
    assert_eq!(
        sdf.map_entries(),
        vec![
            MapEntry {
                kind: ShapeKind::Cube,
                position: Vec3::new(5, 5, 5),
                scale: Vec3::new(7, 8, 9),
                color: Vec3::new(1, 2, 3),
            },
            MapEntry {
                kind: ShapeKind::Implicit,
                position: Vec3::new(6, 6, 6),
                scale: Vec3::new(7, 8, 9),
                color: Vec3::new(1, 2, 3),
            },
        ]
    );
}
