use sdf_physics::map::{MapEntry, ShapeKind};
use sdf_physics::map_print::{format_number, write_entry, write_map, write_number};
use sdf_physics::map_text::{parse_map, parse_number};
use sdf_physics::sdf_controller::SdfController;
use sdf_physics::vector::{Vec3, Vec4};

const ONE: i32 = 65536;

fn text(x: i32) -> String {
    String::from_utf8(format_number(x)).unwrap()
}

#[test]
fn numbers_are_written_exactly() {
    assert_eq!(text(0), "0.0");
    assert_eq!(text(ONE), "1.0");
    assert_eq!(text(-ONE), "-1.0");
    assert_eq!(text(98304), "1.5");
    assert_eq!(text(-16384), "-0.25");
    assert_eq!(text(1), "0.0000152587890625");
    assert_eq!(text(-1), "-0.0000152587890625");
    assert_eq!(text(6554), "0.100006103515625");
    assert_eq!(text(655), "0.0099945068359375");
    assert_eq!(text(i32::MAX), "32767.9999847412109375");
    assert_eq!(text(i32::MIN), "-32768.0");
    assert_eq!(text(10 * ONE), "10.0");
    assert_eq!(text(100 * ONE + 32768), "100.5");
}

#[test]
fn written_numbers_read_back() {
    let mut samples = vec![0, 1, -1, 2, 655, 6553, 6554, ONE - 1, ONE, ONE + 1, i32::MAX, i32::MIN,
        i32::MAX - 1, i32::MIN + 1, 123456789, -987654321];
    let mut x: i32 = 1;
    for _ in 0..2000 {
        x = x.wrapping_mul(1103515245).wrapping_add(12345);
        samples.push(x);
    }
    for x in samples {
        assert_eq!(parse_number(&format_number(x)), Some(x));
    }
}

#[test]
fn write_number_appends() {
    let mut out = b"x ".to_vec();
    write_number(&mut out, -98304);
    write_number(&mut out, 3 * ONE);
    assert_eq!(out, b"x -1.53.0".to_vec());
}

#[test]
fn an_entry_is_one_line_of_four_fields() {
    let e = MapEntry {
        kind: ShapeKind::Sphere,
        position: Vec3::new(0, 98304, -2 * ONE),
        scale: Vec3::new(ONE, ONE, ONE),
        color: Vec3::new(32768, 0, ONE),
    };
    let mut out = Vec::new();
    write_entry(&mut out, &e);
    assert_eq!(
        String::from_utf8(out).unwrap(),
        "sphere\tposition 0.0 1.5 -2.0\tscale 1.0 1.0 1.0\tcolor 0.5 0.0 1.0"
    );
}

#[test]
fn a_written_map_reads_back() {
    let entries = vec![
        MapEntry {
            kind: ShapeKind::Sphere,
            position: Vec3::new(1, -2, 3),
            scale: Vec3::new(i32::MAX, i32::MIN, 0),
            color: Vec3::new(ONE, 0, 655),
        },
        MapEntry {
            kind: ShapeKind::Cube,
            position: Vec3::new(ONE, 2 * ONE, 3 * ONE),
            scale: Vec3::new(32768, 32768, 32768),
            color: Vec3::new(0, ONE, 0),
        },
        MapEntry {
            kind: ShapeKind::Implicit,
            position: Vec3::new(0, 0, 0),
            scale: Vec3::new(0, 0, 0),
            color: Vec3::new(0, 0, 0),
        },
    ];
    let text = write_map(&entries);
    assert_eq!(parse_map(&text), Ok(entries));
    assert!(String::from_utf8(text).unwrap().ends_with("none\tposition 0.0 0.0 0.0\tscale 0.0 0.0 0.0\tcolor 0.0 0.0 0.0\n"));
    assert_eq!(write_map(&vec![]), Vec::<u8>::new());
}

#[test]
fn the_registry_prints_the_shapes_that_a_map_lists() {
    let mut sdf = SdfController::init();
    let map = "cube\tposition 1 2 3\tscale 0.5 0.5 0.5\tcolor 0 1 0\n\
               sphere\tposition 0 0 0\tscale 1 1 1\tcolor 1 0 0\n";
    assert_eq!(sdf.load_map_text(&map.as_bytes().to_vec()), Ok(2));
    // A grenade's shape is exempt from collision and is not listed.
    sdf.new_shape(Vec4::new(0, 0, 0, ONE), Vec4::new(655, 0, 0, ONE), Vec4::new(ONE, 0, ONE, 0))
        .unwrap();
    assert_eq!(
        String::from_utf8(sdf.print_map()).unwrap(),
        "cube\tposition 1.0 2.0 3.0\tscale 0.5 0.5 0.5\tcolor 0.0 1.0 0.0\n\
         sphere\tposition 0.0 0.0 0.0\tscale 1.0 1.0 1.0\tcolor 1.0 0.0 0.0\n"
    );
    let printed = sdf.print_map();
    let mut again = SdfController::init();
    assert_eq!(again.load_map_text(&printed), Ok(2));
    assert_eq!(again.print_map(), printed);
}
