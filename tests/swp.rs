use swp_viewer::geometry::{CurvePoint, Point};
use swp_viewer::swp::{curve_kind, parse_curve_info, parse_point, parse_swp, CurveKind, ParseError};

fn exact(x: i64, y: i64, z: i64) -> CurvePoint {
    CurvePoint { x: x as i128, y: y as i128, z: z as i128, den: 1 }
}

const BEZ: &str = "bez3 curveA 10 4\n[0 0 0]\n[1 2 0]\n[2 2 0.5]\n[3 0 1]\n";

#[test]
fn one_bezier_block_gives_seventeen_polylines() {
    let lines = parse_swp(BEZ.as_bytes()).unwrap();
    assert_eq!(lines.len(), 17);
    assert_eq!(
        lines[0],
        vec![
            exact(0, 0, 0),
            exact(1_000_000, 2_000_000, 0),
            exact(2_000_000, 2_000_000, 500_000),
            exact(3_000_000, 0, 1_000_000),
        ]
    );
    for (j, line) in lines[1..].iter().enumerate() {
        assert_eq!(line.len(), j + 4);
        assert_eq!(line[0], exact(0, 0, 0));
        assert_eq!(line[line.len() - 1], exact(3_000_000, 0, 1_000_000));
    }
}

#[test]
fn truncated_block_is_an_error() {
    let text = "bez3 curveA 10 4\n0 0 0\n1 1 1\n";
    assert_eq!(parse_swp(text.as_bytes()), Err(ParseError::TruncatedInput { line: 1 }));
}

#[test]
fn truncated_unknown_block_is_an_error() {
    let text = "\nwhat name 3 5\n0 0\n";
    assert_eq!(parse_swp(text.as_bytes()), Err(ParseError::TruncatedInput { line: 2 }));
}

#[test]
fn malformed_header_is_an_error() {
    assert_eq!(parse_swp("bez3 a 10\n".as_bytes()), Err(ParseError::MalformedHeader { line: 1 }));
    assert_eq!(parse_swp("bez3 a ten 4\n".as_bytes()), Err(ParseError::MalformedHeader { line: 1 }));
    assert_eq!(parse_swp("bez3 a 10 -4\n".as_bytes()), Err(ParseError::MalformedHeader { line: 1 }));
    assert_eq!(parse_swp("bez3 a 10 3\n0 0\n0 0\n0 0\n".as_bytes()), Err(ParseError::MalformedHeader { line: 1 }));
}

#[test]
fn malformed_point_is_an_error() {
    let text = "bez2 b 5 4\n[0 0]\n[1 y]\n[2 2]\n[3 3]\n";
    assert_eq!(parse_swp(text.as_bytes()), Err(ParseError::MalformedPoint { line: 3 }));
    let one = "bsp2 b 5 1\n[7]\n";
    assert_eq!(parse_swp(one.as_bytes()), Err(ParseError::MalformedPoint { line: 2 }));
    let bad_fourth = "bsp2 b 5 1\n1 2 3 x\n";
    assert_eq!(parse_swp(bad_fourth.as_bytes()), Err(ParseError::MalformedPoint { line: 2 }));
    let exponent_only = "bsp2 b 5 1\n1 2e\n";
    assert_eq!(parse_swp(exponent_only.as_bytes()), Err(ParseError::MalformedPoint { line: 2 }));
}

#[test]
fn reserved_and_unknown_curves_are_passed_over() {
    let text = "circ c 4 2\n0 0\n1 1\n\n  \nsrev s 1 0\nzzzz q 1 1\nnot a point\nbsp3 b 4 2\n0 0 0\n1 1 1\n";
    assert_eq!(parse_swp(text.as_bytes()), Ok(Vec::new()));
}

#[test]
fn curves_follow_each_other_without_separator() {
    let text = format!("{}{}", BEZ, "bez2 two 3 4\n0 0\n0 1\n1 1\n1 0");
    let lines = parse_swp(text.as_bytes()).unwrap();
    assert_eq!(lines.len(), 34);
    assert_eq!(lines[17][1], exact(0, 1_000_000, 0));
}

#[test]
fn empty_scene_has_no_polylines() {
    assert_eq!(parse_swp("".as_bytes()), Ok(Vec::new()));
    assert_eq!(parse_swp("\n \n\t\n".as_bytes()), Ok(Vec::new()));
}

#[test]
fn header_fields_are_read() {
    let line = "  bez2   curveB 20 4 ";
    let info = parse_curve_info(line.as_bytes(), 0, line.len()).unwrap();
    assert_eq!(info.kind, CurveKind::Bezier);
    assert_eq!(&line[info.name_start..info.name_end], "curveB");
    assert_eq!(info.steps, 20);
    assert_eq!(info.points, 4);
    let t = "gcylbsp3";
    assert_eq!(curve_kind(t.as_bytes(), 0, 4), CurveKind::Reserved);
    assert_eq!(curve_kind(t.as_bytes(), 4, 8), CurveKind::BSpline);
    assert_eq!(curve_kind(t.as_bytes(), 0, 8), CurveKind::Unknown);
}

#[test]
fn point_lines_are_read() {
    let l = " [ -1.25 +0.5 ] ";
    assert_eq!(parse_point(l.as_bytes(), 0, l.len()), Some(Point { x: -1_250_000, y: 500_000, z: 0 }));
    let l = "3 .000001 7.";
    assert_eq!(parse_point(l.as_bytes(), 0, l.len()), Some(Point { x: 3_000_000, y: 1, z: 7_000_000 }));
    let l = "1.0000001 0";
    assert_eq!(parse_point(l.as_bytes(), 0, l.len()), Some(Point { x: 1_000_000, y: 0, z: 0 }));
    let l = "1.2.3 0";
    assert_eq!(parse_point(l.as_bytes(), 0, l.len()), None);
    let l = "9223372036854.775807 -9223372036854.775807";
    assert_eq!(parse_point(l.as_bytes(), 0, l.len()), Some(Point { x: i64::MAX, y: -i64::MAX, z: 0 }));
    let l = "9223372036854.775808 0";
    assert_eq!(parse_point(l.as_bytes(), 0, l.len()), None);
}

#[test]
fn point_lines_take_float_notation() {
    let l = "1e3 2.5E-2 0.1234567";
    assert_eq!(parse_point(l.as_bytes(), 0, l.len()), Some(Point { x: 1_000_000_000, y: 25_000, z: 123_457 }));
    let l = "-0.0000005 0.00000049 -7E+1";
    assert_eq!(parse_point(l.as_bytes(), 0, l.len()), Some(Point { x: -1, y: 0, z: -70_000_000 }));
    let l = "1e-400 0e400 .5e1";
    assert_eq!(parse_point(l.as_bytes(), 0, l.len()), Some(Point { x: 0, y: 0, z: 5_000_000 }));
    let l = "123456789012345678901234567890e-25 -1.5e-6";
    assert_eq!(parse_point(l.as_bytes(), 0, l.len()), Some(Point { x: 12_345_678_901, y: -2, z: 0 }));
    let l = "1e400 0";
    assert_eq!(parse_point(l.as_bytes(), 0, l.len()), None);
    let l = "9.3e12 0";
    assert_eq!(parse_point(l.as_bytes(), 0, l.len()), None);
    for bad in ["e5 0", "1e 0", ". 0", "1e+ 0", "1.5.e2 0", "--1 0", "inf 0"] {
        assert_eq!(parse_point(bad.as_bytes(), 0, bad.len()), None, "{}", bad);
    }
}

#[test]
fn point_lines_with_four_numbers_take_the_first_three() {
    let l = "[1 2 3 4]";
    assert_eq!(
        parse_point(l.as_bytes(), 0, l.len()),
        Some(Point { x: 1_000_000, y: 2_000_000, z: 3_000_000 })
    );
}

#[test]
fn header_counts_may_carry_a_plus() {
    let line = "bez3 c +10 +4";
    let info = parse_curve_info(line.as_bytes(), 0, line.len()).unwrap();
    assert_eq!(info.steps, 10);
    assert_eq!(info.points, 4);
    assert_eq!(parse_curve_info("bez3 c 10 -4".as_bytes(), 0, 12), None);
    assert_eq!(parse_curve_info("bez3 c 10 4 5".as_bytes(), 0, 13), None);
}

#[test]
fn scene_with_exponent_coordinates() {
    let text = "bez3 curveE 10 4\n0 0 0\n1e0 2E0 0\n2 2 5e-1\n3e0 0 1\n";
    let lines = parse_swp(text.as_bytes()).unwrap();
    assert_eq!(lines.len(), 17);
    assert_eq!(lines[0][1], exact(1_000_000, 2_000_000, 0));
    assert_eq!(lines[0][2], exact(2_000_000, 2_000_000, 500_000));
}
