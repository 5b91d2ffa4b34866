use sdf_physics::map::{MapEntry, ShapeKind};
use sdf_physics::map_text::{
    parse_kind, parse_line, parse_map, parse_number, parse_vector, split, MapError, MapLine,
};
use sdf_physics::sdf_controller::SdfController;
use sdf_physics::vector::{Vec3, Vec4};

const ONE: i32 = 65536;

fn bytes(s: &str) -> Vec<u8> {
    s.as_bytes().to_vec()
}

#[test]
fn split_keeps_empty_pieces() {
    assert_eq!(split(&bytes("a b  c"), b' '), vec![bytes("a"), bytes("b"), bytes(""), bytes("c")]);
    assert_eq!(split(&bytes(""), b' '), vec![bytes("")]);
    assert_eq!(split(&bytes("\n"), b'\n'), vec![bytes(""), bytes("")]);
    assert_eq!(split(&bytes("abc"), b'\t'), vec![bytes("abc")]);
    assert_eq!(split(&bytes("\tx\t"), b'\t'), vec![bytes(""), bytes("x"), bytes("")]);
}

#[test]
fn numbers_are_read_as_fixed_point() {
    assert_eq!(parse_number(&bytes("0")), Some(0));
    assert_eq!(parse_number(&bytes("1")), Some(ONE));
    assert_eq!(parse_number(&bytes("1.5")), Some(98304));
    assert_eq!(parse_number(&bytes("-0.25")), Some(-16384));
    assert_eq!(parse_number(&bytes("+2")), Some(2 * ONE));
    assert_eq!(parse_number(&bytes(".5")), Some(32768));
    assert_eq!(parse_number(&bytes("5.")), Some(5 * ONE));
    assert_eq!(parse_number(&bytes("0.1")), Some(6553));
    assert_eq!(parse_number(&bytes("-0.1")), Some(-6553));
    assert_eq!(parse_number(&bytes("0.01")), Some(655));
    assert_eq!(parse_number(&bytes("0.000001")), Some(0));
    assert_eq!(parse_number(&bytes("007.50")), Some(491520));
    assert_eq!(parse_number(&bytes("0.999999999999999999")), Some(65535));
    assert_eq!(parse_number(&bytes("32767.99999")), Some(2147483647));
}

#[test]
fn numbers_saturate() {
    assert_eq!(parse_number(&bytes("32768")), Some(i32::MAX));
    assert_eq!(parse_number(&bytes("-32768")), Some(i32::MIN));
    assert_eq!(parse_number(&bytes("-32769")), Some(i32::MIN));
    assert_eq!(parse_number(&bytes("999999999999999999")), Some(i32::MAX));
    assert_eq!(parse_number(&bytes("-999999999999999999.999999999999999999")), Some(i32::MIN));
}

#[test]
fn what_is_no_number() {
    for s in ["", "-", "+", ".", "-.", "1.2.3", "1e3", "abc", "1 ", " 1", "--1", "+-1", "1,5", "inf",
        "nan", "0x10", "1234567890123456789", "0.1234567890123456789", "3\r"]
    {
        assert_eq!(parse_number(&bytes(s)), None);
    }
}

#[test]
fn kinds_by_name() {
    assert_eq!(parse_kind(&bytes("sphere")), ShapeKind::Sphere);
    assert_eq!(parse_kind(&bytes("cube")), ShapeKind::Cube);
    assert_eq!(parse_kind(&bytes("")), ShapeKind::Implicit);
    assert_eq!(parse_kind(&bytes("Sphere")), ShapeKind::Implicit);
    assert_eq!(parse_kind(&bytes("cubes")), ShapeKind::Implicit);
    assert_eq!(parse_kind(&bytes("torus")), ShapeKind::Implicit);
}

#[test]
fn a_field_is_a_label_and_three_numbers() {
    assert_eq!(parse_vector(&bytes("position 1 2.5 -3")), Some(Vec3::new(ONE, 163840, -3 * ONE)));
    assert_eq!(parse_vector(&bytes("anything 0 0 0 9 x")), Some(Vec3::new(0, 0, 0)));
    assert_eq!(parse_vector(&bytes("position 1 2")), None);
    assert_eq!(parse_vector(&bytes("position 1  2 3")), None);
    assert_eq!(parse_vector(&bytes("1 2 3")), None);
    assert_eq!(parse_vector(&bytes("position 1 2 x")), None);
    assert_eq!(parse_vector(&bytes("")), None);
}

#[test]
fn a_line_with_four_fields_names_a_shape() {
    assert_eq!(
        parse_line(&bytes("sphere\tposition 0 1.5 -2\tscale 1 1 1\tcolor 0.5 0 1")),
        MapLine::Entry(MapEntry {
            kind: ShapeKind::Sphere,
            position: Vec3::new(0, 98304, -2 * ONE),
            scale: Vec3::new(ONE, ONE, ONE),
            color: Vec3::new(32768, 0, ONE),
        })
    );
    assert_eq!(
        parse_line(&bytes("cube extra\tp 1 1 1\ts 2 2 2\tc 0 0 0")),
        MapLine::Entry(MapEntry {
            kind: ShapeKind::Cube,
            position: Vec3::new(ONE, ONE, ONE),
            scale: Vec3::new(2 * ONE, 2 * ONE, 2 * ONE),
            color: Vec3::new(0, 0, 0),
        })
    );
    assert_eq!(parse_line(&bytes("")), MapLine::Skipped);
    assert_eq!(parse_line(&bytes("# a remark")), MapLine::Skipped);
    assert_eq!(parse_line(&bytes("sphere\tposition 0 0 0\tscale 1 1 1")), MapLine::Skipped);
    assert_eq!(parse_line(&bytes("a\tb\tc\td\te")), MapLine::Skipped);
    assert_eq!(parse_line(&bytes("a\tb\tc\td")), MapLine::Malformed);
    assert_eq!(
        parse_line(&bytes("sphere\tposition 0 0 0\tscale 1 1 1\tcolor 1 0 0\r")),
        MapLine::Malformed
    );
}

#[test]
fn a_text_is_read_line_by_line() {
    let text = "sphere\tposition 0 0 0\tscale 1 1 1\tcolor 1 0 0\n\
                \n\
                remark\n\
                cube\tposition 1 2 3\tscale 0.5 0.5 0.5\tcolor 0 1 0\n";
    assert_eq!(
        parse_map(&bytes(text)),
        Ok(vec![
            MapEntry {
                kind: ShapeKind::Sphere,
                position: Vec3::new(0, 0, 0),
                scale: Vec3::new(ONE, ONE, ONE),
                color: Vec3::new(ONE, 0, 0),
            },
            MapEntry {
                kind: ShapeKind::Cube,
                position: Vec3::new(ONE, 2 * ONE, 3 * ONE),
                scale: Vec3::new(32768, 32768, 32768),
                color: Vec3::new(0, ONE, 0),
            },
        ])
    );
    assert_eq!(parse_map(&bytes("")), Ok(vec![]));
}

#[test]
fn the_first_malformed_line_is_reported() {
    let text = "sphere\tposition 0 0 0\tscale 1 1 1\tcolor 1 0 0\n\
                remark\n\
                cube\tposition 1 2 x\tscale 1 1 1\tcolor 0 1 0\n\
                cube\tposition\tscale\tcolor\n";
    assert_eq!(parse_map(&bytes(text)), Err(MapError { line: 2 }));
}

#[test]
fn a_map_text_is_loaded_whole_or_not_at_all() {
    let mut sdf = SdfController::init();
    let good = "sphere\tposition 0 0 0\tscale 1 1 1\tcolor 1 0 0\n\
                cube\tposition 1 2 3\tscale 1 1 1\tcolor 0 1 0";
    assert_eq!(sdf.load_map_text(&bytes(good)), Ok(2));
    assert_eq!(sdf.active_count(), 2);
    assert_eq!(sdf.shape_at(1).unwrap().position, Vec4::new(ONE, 2 * ONE, 3 * ONE, 0));
    assert_eq!(sdf.shape_at(1).unwrap().properties, Vec4::new(ONE, ONE, ONE, 2 * ONE));
    let bad = "sphere\tposition 0 0 0\tscale 1 1 1\tcolor 1 0 zero";
    assert_eq!(sdf.load_map_text(&bytes(bad)), Err(MapError { line: 0 }));
    assert_eq!(sdf.active_count(), 2);
    assert_eq!(sdf.shape_at(1).unwrap().position, Vec4::new(ONE, 2 * ONE, 3 * ONE, 0));
}
