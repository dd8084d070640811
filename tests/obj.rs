use swp_viewer::geometry::{Point, Vertex};
use swp_viewer::obj::parse_obj;
use swp_viewer::swp::ParseError;

fn pt(x: i64, y: i64, z: i64) -> Point {
    Point { x, y, z }
}

#[test]
fn single_triangle_mesh() {
    let text = "v 0 0 0\nv 1 0 0\nv 0 1 0\nvn 0 0 1\nf 1/0/1 2/0/1 3/0/1\n";
    let (vertices, indices) = parse_obj(text.as_bytes()).unwrap();
    let n = pt(0, 0, 1_000_000);
    assert_eq!(
        vertices,
        vec![
            Vertex { position: pt(0, 0, 0), normal: n },
            Vertex { position: pt(1_000_000, 0, 0), normal: n },
            Vertex { position: pt(0, 1_000_000, 0), normal: n },
        ]
    );
    assert_eq!(indices, vec![0u16]);
}

#[test]
fn shared_corners_are_repeated_and_other_lines_ignored() {
    let text = "# a square\no square\nv 0 0 0\nv 1 0 0\nv 1 1 0\nv 0 1 0\nvn 0 0 1\nvt 0.5 0.5\n\
                f 1/1/1 2/1/1 3/1/1\nf 1/1/1 3/1/1 4/1/1";
    let (vertices, _) = parse_obj(text.as_bytes()).unwrap();
    assert_eq!(vertices.len(), 6);
    assert_eq!(vertices[0].position, vertices[3].position);
    assert_eq!(vertices[2].position, vertices[4].position);
    assert_eq!(vertices[5].position, pt(0, 1_000_000, 0));
}

#[test]
fn faces_may_come_before_positions() {
    let text = "f 1/1/1 1/1/1 1/1/1\nv -2.5 0.125 3\nvn 0 1 0\n";
    let (vertices, _) = parse_obj(text.as_bytes()).unwrap();
    assert_eq!(vertices.len(), 3);
    assert_eq!(vertices[1].position, pt(-2_500_000, 125_000, 3_000_000));
    assert_eq!(vertices[1].normal, pt(0, 1_000_000, 0));
}

#[test]
fn zero_index_is_rejected() {
    let text = "v 0 0 0\nvn 0 0 1\nf 0/0/1 1/0/1 1/0/1\n";
    assert_eq!(parse_obj(text.as_bytes()), Err(ParseError::InvalidFaceIndex { line: 3 }));
}

#[test]
fn index_past_the_end_is_rejected() {
    let text = "v 0 0 0\nvn 0 0 1\nf 1/0/1 1/0/2 1/0/1\n";
    assert_eq!(parse_obj(text.as_bytes()), Err(ParseError::InvalidFaceIndex { line: 3 }));
}

#[test]
fn malformed_face_field_is_rejected() {
    let text = "v 0 0 0\nvn 0 0 1\nf 1//1 1/0/1 1/0/1\n";
    assert_eq!(parse_obj(text.as_bytes()), Err(ParseError::InvalidFaceIndex { line: 3 }));
}

#[test]
fn malformed_position_is_rejected() {
    let text = "v 0 0 0\nv 1 x 0\n";
    assert_eq!(parse_obj(text.as_bytes()), Err(ParseError::MalformedPoint { line: 2 }));
    assert_eq!(parse_obj("vn 1 2\n".as_bytes()), Err(ParseError::MalformedPoint { line: 1 }));
}

#[test]
fn empty_mesh_has_no_vertices() {
    let (vertices, indices) = parse_obj("".as_bytes()).unwrap();
    assert!(vertices.is_empty());
    assert_eq!(indices, vec![0u16]);
}

#[test]
fn every_coordinate_word_must_be_a_number() {
    assert_eq!(parse_obj("v 1 2 3 x\n".as_bytes()), Err(ParseError::MalformedPoint { line: 1 }));
    let text = "v 1e0 0 0 1\nvn 0 0 1E0\nf +1/0/1 1/0/1 1/0/1\n";
    let (vertices, _) = parse_obj(text.as_bytes()).unwrap();
    assert_eq!(vertices[0].position, pt(1_000_000, 0, 0));
    assert_eq!(vertices[0].normal, pt(0, 0, 1_000_000));
}
