use vstd::prelude::*;

use crate::geometry::{Point, Vertex};
use crate::swp::{all_coordinates, coordinate_word, coordinate_words, natural_word, ParseError};
use crate::text::{
    coordinate, coordinate_value, line_spans, natural_of, natural_value, spans_match,
    split_lines, split_words, word_spans,
};

verus! {

/// A mesh triangle: for each corner, the 1-based index of its position and
/// of its normal, and the line that declared it.
#[derive(Clone, Copy, Debug, PartialEq, Eq, Structural)]
pub struct Face {
    pub v1: usize,
    pub v2: usize,
    pub v3: usize,
    pub vn1: usize,
    pub vn2: usize,
    pub vn3: usize,
    pub line: usize,
}

/// A mesh as read: positions, normals and faces in the order of the text.
pub struct ObjFile {
    pub vertices: Vec<Point>,
    pub normals: Vec<Point>,
    pub faces: Vec<Face>,
}

/// The index of the first byte `c` in `s[a..b]`, or `b`.
pub open spec fn find_byte(s: Seq<u8>, a: int, b: int, c: u8) -> int
    decreases b - a,
{
    if a >= b {
        b
    } else if s[a] == c {
        a
    } else {
        find_byte(s, a + 1, b, c)
    }
}

/// The three slash-separated natural numbers of a face corner `s[a..b]`
/// (position, texture, normal), if it is one.
pub open spec fn corner_spec(s: Seq<u8>, a: int, b: int) -> Option<(usize, usize)> {
    let p1 = find_byte(s, a, b, 0x2fu8);
    let p2 = find_byte(s, p1 + 1, b, 0x2fu8);
    if p1 < b && p2 < b && natural_word(s, (a, p1)) && natural_word(s, (p1 + 1, p2))
        && natural_word(s, (p2 + 1, b)) {
        Some((natural_of(s, a, p1) as usize, natural_of(s, p2 + 1, b) as usize))
    } else {
        None
    }
}

/// The face on the line `s[a..b]` (line number `line`), if it is one: a tag
/// and three corners.
pub open spec fn face_spec(s: Seq<u8>, a: int, b: int, line: usize) -> Option<Face> {
    let w = word_spans(s, a, b);
    if w.len() == 4 {
        match (corner_spec(s, w[1].0, w[1].1), corner_spec(s, w[2].0, w[2].1), corner_spec(s, w[3].0, w[3].1)) {
            (Some(c1), Some(c2), Some(c3)) => Some(
                Face { v1: c1.0, v2: c2.0, v3: c3.0, vn1: c1.1, vn2: c2.1, vn3: c3.1, line },
            ),
            _ => None,
        }
    } else {
        None
    }
}

/// The point of a `v` or `vn` line `s[a..b]`: at least three words after
/// the tag, each a coordinate, of which the first three are taken.
pub open spec fn coord_line_spec(s: Seq<u8>, a: int, b: int) -> Option<Point> {
    let w = word_spans(s, a, b);
    if w.len() >= 4 && coordinate_words(s, w, 1) {
        Some(
            Point {
                x: coordinate_value(s, w[1].0, w[1].1) as i64,
                y: coordinate_value(s, w[2].0, w[2].1) as i64,
                z: coordinate_value(s, w[3].0, w[3].1) as i64,
            },
        )
    } else {
        None
    }
}

/// What a line says by its first word.
pub enum LineTag {
    Position,
    Normal,
    Face,
    Other,
}

pub open spec fn tag_spec(s: Seq<u8>, w: Seq<(int, int)>) -> LineTag {
    if w.len() == 0 {
        LineTag::Other
    } else if w[0].1 - w[0].0 == 1 && s[w[0].0] == 0x76u8 {
        LineTag::Position
    } else if w[0].1 - w[0].0 == 2 && s[w[0].0] == 0x76u8 && s[w[0].0 + 1] == 0x6eu8 {
        LineTag::Normal
    } else if w[0].1 - w[0].0 == 1 && s[w[0].0] == 0x66u8 {
        LineTag::Face
    } else {
        LineTag::Other
    }
}

/// The mesh read from line `i` on, added to `vs`, `ns` and `fs`, or the
/// first malformed line.
pub open spec fn mesh_from(
    s: Seq<u8>,
    ls: Seq<(int, int)>,
    i: int,
    vs: Seq<Point>,
    ns: Seq<Point>,
    fs: Seq<Face>,
) -> Result<(Seq<Point>, Seq<Point>, Seq<Face>), ParseError>
    decreases ls.len() - i,
{
    if i >= ls.len() || i < 0 {
        Ok((vs, ns, fs))
    } else {
        let (a, b) = ls[i];
        match tag_spec(s, word_spans(s, a, b)) {
            LineTag::Position => match coord_line_spec(s, a, b) {
                None => Err(ParseError::MalformedPoint { line: (i + 1) as usize }),
                Some(p) => mesh_from(s, ls, i + 1, vs.push(p), ns, fs),
            },
            LineTag::Normal => match coord_line_spec(s, a, b) {
                None => Err(ParseError::MalformedPoint { line: (i + 1) as usize }),
                Some(p) => mesh_from(s, ls, i + 1, vs, ns.push(p), fs),
            },
            LineTag::Face => match face_spec(s, a, b, (i + 1) as usize) {
                None => Err(ParseError::InvalidFaceIndex { line: (i + 1) as usize }),
                Some(f) => mesh_from(s, ls, i + 1, vs, ns, fs.push(f)),
            },
            LineTag::Other => mesh_from(s, ls, i + 1, vs, ns, fs),
        }
    }
}

/// A 1-based index into a sequence of `len` items.
pub open spec fn resolves(k: usize, len: int) -> bool {
    1 <= k <= len
}

/// The face `f` refers only to positions and normals that exist.
pub open spec fn face_resolves(f: Face, vs: Seq<Point>, ns: Seq<Point>) -> bool {
    &&& resolves(f.v1, vs.len() as int) && resolves(f.v2, vs.len() as int) && resolves(f.v3, vs.len() as int)
    &&& resolves(f.vn1, ns.len() as int) && resolves(f.vn2, ns.len() as int) && resolves(f.vn3, ns.len() as int)
}

/// The three corners of `f`, in order.
pub open spec fn face_vertices(f: Face, vs: Seq<Point>, ns: Seq<Point>) -> Seq<Vertex> {
    seq![
        Vertex { position: vs[f.v1 - 1], normal: ns[f.vn1 - 1] },
        Vertex { position: vs[f.v2 - 1], normal: ns[f.vn2 - 1] },
        Vertex { position: vs[f.v3 - 1], normal: ns[f.vn3 - 1] },
    ]
}

/// The corners of faces `k..` appended to `acc`, or the first face that
/// names a missing position or normal.
pub open spec fn corners_from(vs: Seq<Point>, ns: Seq<Point>, fs: Seq<Face>, k: int, acc: Seq<Vertex>)
    -> Result<Seq<Vertex>, ParseError>
    decreases fs.len() - k,
{
    if k >= fs.len() || k < 0 {
        Ok(acc)
    } else if !face_resolves(fs[k], vs, ns) {
        Err(ParseError::InvalidFaceIndex { line: fs[k].line })
    } else {
        corners_from(vs, ns, fs, k + 1, acc + face_vertices(fs[k], vs, ns))
    }
}

/// The triangle list that the mesh text `s` describes, three corners per
/// face in the order of the text, or the first error in it.
pub open spec fn mesh(s: Seq<u8>) -> Result<Seq<Vertex>, ParseError> {
    match mesh_from(s, line_spans(s), 0, Seq::empty(), Seq::empty(), Seq::empty()) {
        Err(e) => Err(e),
        Ok((vs, ns, fs)) => corners_from(vs, ns, fs, 0, Seq::empty()),
    }
}

/// Index of the first byte `c` in `s[a..b]`, or `b`.
fn find_byte_exec(s: &[u8], a: usize, b: usize, c: u8) -> (r: usize)
    requires
        a <= b <= s@.len(),
    ensures
        r == find_byte(s@, a as int, b as int, c),
        a <= r <= b,
{
    let mut i = a;
    while i < b && s[i] != c
        invariant
            a <= i <= b <= s@.len(),
            find_byte(s@, i as int, b as int, c) == find_byte(s@, a as int, b as int, c),
        decreases b - i,
    {
        i = i + 1;
    }
    i
}

fn parse_corner(s: &[u8], a: usize, b: usize) -> (r: Option<(usize, usize)>)
    requires
        a <= b <= s@.len(),
    ensures
        r == corner_spec(s@, a as int, b as int),
{
    let p1 = find_byte_exec(s, a, b, 0x2f);
    if p1 >= b {
        return None;
    }
    let p2 = find_byte_exec(s, p1 + 1, b, 0x2f);
    if p2 >= b {
        return None;
    }
    let v = natural_value(s, a, p1, usize::MAX as u64);
    let t = natural_value(s, p1 + 1, p2, usize::MAX as u64);
    let n = natural_value(s, p2 + 1, b, usize::MAX as u64);
    match (v, t, n) {
        (Some(v), Some(_), Some(n)) => Some((v as usize, n as usize)),
        _ => None,
    }
}

/// Reads the face on the line `s[a..b]`: the tag `f` and three corners
/// `position/texture/normal`, with 1-based indices.
pub fn parse_obj_face(s: &[u8], a: usize, b: usize, line: usize) -> (r: Option<Face>)
    requires
        a <= b <= s@.len(),
    ensures
        r == face_spec(s@, a as int, b as int, line),
{
    let w = split_words(s, a, b);
    if w.len() != 4 {
        return None;
    }
    let c1 = parse_corner(s, w[1].0, w[1].1);
    let c2 = parse_corner(s, w[2].0, w[2].1);
    let c3 = parse_corner(s, w[3].0, w[3].1);
    match (c1, c2, c3) {
        (Some(c1), Some(c2), Some(c3)) => Some(
            Face { v1: c1.0, v2: c2.0, v3: c3.0, vn1: c1.1, vn2: c2.1, vn3: c3.1, line },
        ),
        _ => None,
    }
}

/// Reads the point of a `v` or `vn` line `s[a..b]`.
pub fn parse_obj_coord(s: &[u8], a: usize, b: usize) -> (r: Option<Point>)
    requires
        a <= b <= s@.len(),
    ensures
        r == coord_line_spec(s@, a as int, b as int),
{
    let w = split_words(s, a, b);
    let ghost ws = w@.map_values(|p: (usize, usize)| (p.0 as int, p.1 as int));
    assert(ws =~= word_spans(s@, a as int, b as int));
    if w.len() < 4 || !all_coordinates(s, &w, 1) {
        return None;
    }
    reveal(coordinate_word);
    assert(coordinate_word(s@, ws[1]) && coordinate_word(s@, ws[2]) && coordinate_word(s@, ws[3]));
    let x = coordinate(s, w[1].0, w[1].1);
    let y = coordinate(s, w[2].0, w[2].1);
    let z = coordinate(s, w[3].0, w[3].1);
    match (x, y, z) {
        (Some(x), Some(y), Some(z)) => Some(Point { x, y, z }),
        _ => None,
    }
}

fn line_tag(s: &[u8], w: &Vec<(usize, usize)>) -> (r: LineTag)
    requires
        forall|k: int| 0 <= k < w@.len() ==> #[trigger] w@[k].0 < w@[k].1 <= s@.len(),
    ensures
        r == tag_spec(s@, w@.map_values(|p: (usize, usize)| (p.0 as int, p.1 as int))),
{
    let ghost ws = w@.map_values(|p: (usize, usize)| (p.0 as int, p.1 as int));
    if w.len() == 0 {
        return LineTag::Other;
    }
    let (a, b) = w[0];
    assert(ws[0] == (a as int, b as int));
    if b - a == 1 && s[a] == 0x76 {
        LineTag::Position
    } else if b - a == 2 && s[a] == 0x76 && s[a + 1] == 0x6e {
        LineTag::Normal
    } else if b - a == 1 && s[a] == 0x66 {
        LineTag::Face
    } else {
        LineTag::Other
    }
}

impl ObjFile {
    /// The corners of every face, three per face in order, each the
    /// position and normal that it names; or the first face that names a
    /// missing one.
    pub fn to_vertices(&self) -> (r: Result<Vec<Vertex>, ParseError>)
        ensures
            match r {
                Ok(v) => corners_from(self.vertices@, self.normals@, self.faces@, 0, Seq::empty())
                    == Ok::<Seq<Vertex>, ParseError>(v@),
                Err(e) => corners_from(self.vertices@, self.normals@, self.faces@, 0, Seq::empty())
                    == Err::<Seq<Vertex>, ParseError>(e),
            },
    {
        let ghost vs = self.vertices@;
        let ghost ns = self.normals@;
        let ghost fs = self.faces@;
        let mut result: Vec<Vertex> = Vec::new();
        let mut k: usize = 0;
        while k < self.faces.len()
            invariant
                k <= fs.len(),
                vs == self.vertices@,
                ns == self.normals@,
                fs == self.faces@,
                corners_from(vs, ns, fs, 0, Seq::empty()) == corners_from(vs, ns, fs, k as int, result@),
            decreases fs.len() - k,
        {
            let f = self.faces[k];
            let nv = self.vertices.len();
            let nn = self.normals.len();
            if !(1 <= f.v1 && f.v1 <= nv && 1 <= f.v2 && f.v2 <= nv && 1 <= f.v3 && f.v3 <= nv
                && 1 <= f.vn1 && f.vn1 <= nn && 1 <= f.vn2 && f.vn2 <= nn && 1 <= f.vn3 && f.vn3 <= nn) {
                return Err(ParseError::InvalidFaceIndex { line: f.line });
            }
            let ghost before = result@;
            result.push(Vertex { position: self.vertices[f.v1 - 1], normal: self.normals[f.vn1 - 1] });
            result.push(Vertex { position: self.vertices[f.v2 - 1], normal: self.normals[f.vn2 - 1] });
            result.push(Vertex { position: self.vertices[f.v3 - 1], normal: self.normals[f.vn3 - 1] });
            assert(result@ =~= before + face_vertices(f, vs, ns));
            k = k + 1;
        }
        Ok(result)
    }
}

/// Reads a mesh: `v` and `vn` lines give positions and normals, `f` lines
/// give triangles by 1-based indices, other lines are passed over. Gives
/// the triangle list, three corners per face, or the first error. The
/// second part is an index buffer holding the single index 0: the triangle
/// list is drawn as it stands, without indices.
pub fn parse_obj(text: &[u8]) -> (r: Result<(Vec<Vertex>, Vec<u16>), ParseError>)
    ensures
        match r {
            Ok((v, i)) => mesh(text@) == Ok::<Seq<Vertex>, ParseError>(v@) && i@ == seq![0u16],
            Err(e) => mesh(text@) == Err::<Seq<Vertex>, ParseError>(e),
        },
{
    let ghost s = text@;
    let ghost ls = line_spans(s);
    let lines = split_lines(text);
    let mut obj = ObjFile { vertices: Vec::new(), normals: Vec::new(), faces: Vec::new() };
    let mut i: usize = 0;
    while i < lines.len()
        invariant
            i <= lines@.len(),
            spans_match(lines@, ls, s.len() as int),
            ls == line_spans(s),
            s == text@,
            mesh_from(s, ls, 0, Seq::empty(), Seq::empty(), Seq::empty()) == mesh_from(
                s,
                ls,
                i as int,
                obj.vertices@,
                obj.normals@,
                obj.faces@,
            ),
        decreases lines@.len() - i,
    {
        let (a, b) = lines[i];
        let w = split_words(text, a, b);
        assert(w@.map_values(|p: (usize, usize)| (p.0 as int, p.1 as int)) =~= word_spans(s, a as int, b as int));
        match line_tag(text, &w) {
            LineTag::Position => match parse_obj_coord(text, a, b) {
                None => {
                    return Err(ParseError::MalformedPoint { line: i + 1 });
                },
                Some(p) => obj.vertices.push(p),
            },
            LineTag::Normal => match parse_obj_coord(text, a, b) {
                None => {
                    return Err(ParseError::MalformedPoint { line: i + 1 });
                },
                Some(p) => obj.normals.push(p),
            },
            LineTag::Face => match parse_obj_face(text, a, b, i + 1) {
                None => {
                    return Err(ParseError::InvalidFaceIndex { line: i + 1 });
                },
                Some(f) => obj.faces.push(f),
            },
            LineTag::Other => {},
        }
        i = i + 1;
    }
    match obj.to_vertices() {
        Ok(v) => Ok((v, vec![0u16])),
        Err(e) => Err(e),
    }
}

} // verus!
