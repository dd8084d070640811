use vstd::prelude::*;

use crate::bezier::{tessellate, tessellation};
use crate::geometry::{exact, CurvePoint, Point};
use crate::text::{
    coordinate, coordinate_magnitude, coordinate_syntax, coordinate_value, line_spans,
    natural_of, natural_syntax, natural_value, spans_match, split_lines, split_words, trim_brackets,
    trim_end, trim_start, word_spans,
};

verus! {

/// Why a scene or mesh text was refused; `line` counts from 1.
#[derive(Clone, Copy, Debug, PartialEq, Eq, Structural)]
pub enum ParseError {
    /// A curve header without four words, with a count that is not a
    /// natural number, or a Bézier curve that does not have four points.
    MalformedHeader { line: usize },
    /// A point line without at least two words, or with a word that is not a coordinate.
    MalformedPoint { line: usize },
    /// The text ends before a curve's points do; `line` is the header's.
    TruncatedInput { line: usize },
    /// A face that is malformed or names a position or normal that is not there.
    InvalidFaceIndex { line: usize },
    /// The text could not be read.
    IoError,
}

/// The kinds of curve that a scene names by a four-letter tag.
#[derive(Clone, Copy, Debug, PartialEq, Eq, Structural)]
pub enum CurveKind {
    /// `bez2` or `bez3`: one cubic Bézier segment.
    Bezier,
    /// `bsp2` or `bsp3`.
    BSpline,
    /// `circ`, `srev` or `gcyl`: known, and drawn as nothing yet.
    Reserved,
    /// Any other tag: passed over.
    Unknown,
}

/// A curve header: its kind, where its name starts and ends in the text,
/// its step count and the number of point lines that follow it.
#[derive(Clone, Copy, Debug, PartialEq, Eq, Structural)]
pub struct CurveInfo {
    pub kind: CurveKind,
    pub name_start: usize,
    pub name_end: usize,
    pub steps: usize,
    pub points: usize,
}

/// The lowest resolution at which a Bézier curve is tessellated.
pub const FIRST_RESOLUTION: usize = 4;

/// One past the highest resolution at which a Bézier curve is tessellated.
pub const END_RESOLUTION: usize = 20;

pub open spec fn is_tag(s: Seq<u8>, a: int, b: int, t: Seq<u8>) -> bool {
    b - a == 4 && s.subrange(a, b) == t
}

/// The kind of curve that the tag `s[a..b]` names.
pub open spec fn kind_of(s: Seq<u8>, a: int, b: int) -> CurveKind {
    if is_tag(s, a, b, seq![0x62u8, 0x65, 0x7a, 0x32]) || is_tag(s, a, b, seq![0x62u8, 0x65, 0x7a, 0x33]) {
        CurveKind::Bezier
    } else if is_tag(s, a, b, seq![0x62u8, 0x73, 0x70, 0x32]) || is_tag(s, a, b, seq![0x62u8, 0x73, 0x70, 0x33]) {
        CurveKind::BSpline
    } else if is_tag(s, a, b, seq![0x63u8, 0x69, 0x72, 0x63]) || is_tag(s, a, b, seq![0x73u8, 0x72, 0x65, 0x76])
        || is_tag(s, a, b, seq![0x67u8, 0x63, 0x79, 0x6c]) {
        CurveKind::Reserved
    } else {
        CurveKind::Unknown
    }
}

/// A word of `s` that spells a natural number that fits in a `usize`.
pub open spec fn natural_word(s: Seq<u8>, w: (int, int)) -> bool {
    natural_syntax(s, w.0, w.1) && natural_of(s, w.0, w.1) <= usize::MAX
}

/// The header that the line `s[a..b]` states, if it is one: four words, the
/// last two natural numbers, and four points for a Bézier curve.
pub open spec fn header_spec(s: Seq<u8>, a: int, b: int) -> Option<CurveInfo> {
    let w = word_spans(s, a, b);
    if w.len() == 4 && natural_word(s, w[2]) && natural_word(s, w[3]) {
        let info = CurveInfo {
            kind: kind_of(s, w[0].0, w[0].1),
            name_start: w[1].0 as usize,
            name_end: w[1].1 as usize,
            steps: natural_of(s, w[2].0, w[2].1) as usize,
            points: natural_of(s, w[3].0, w[3].1) as usize,
        };
        if info.kind == CurveKind::Bezier && info.points != 4 {
            None
        } else {
            Some(info)
        }
    } else {
        None
    }
}

/// A word of `s` that is a coordinate within range.
#[verifier::opaque]
pub open spec fn coordinate_word(s: Seq<u8>, w: (int, int)) -> bool {
    coordinate_syntax(s, w.0, w.1) && coordinate_magnitude(s, w.0, w.1) <= i64::MAX
}

/// Every word of `w` from `from` on is a coordinate.
pub open spec fn coordinate_words(s: Seq<u8>, w: Seq<(int, int)>, from: int) -> bool {
    forall|k: int| from <= k < w.len() ==> coordinate_word(s, #[trigger] w[k])
}

/// The point that the line `s[a..b]` states, if it is one: within optional
/// brackets, at least two words, each a coordinate. The first three are
/// the point's; a missing third one is zero.
pub open spec fn point_spec(s: Seq<u8>, a: int, b: int) -> Option<Point> {
    let lo = trim_start(s, a, b);
    let w = word_spans(s, lo, trim_end(s, lo, b));
    if w.len() >= 2 && coordinate_words(s, w, 0) {
        Some(
            Point {
                x: coordinate_value(s, w[0].0, w[0].1) as i64,
                y: coordinate_value(s, w[1].0, w[1].1) as i64,
                z: if w.len() >= 3 {
                    coordinate_value(s, w[2].0, w[2].1) as i64
                } else {
                    0
                },
            },
        )
    } else {
        None
    }
}

/// The points of lines `i..end` appended to `acc`, or the index of the
/// first of those lines that is not a point.
pub open spec fn block_from(s: Seq<u8>, ls: Seq<(int, int)>, i: int, end: int, acc: Seq<Point>)
    -> Result<Seq<Point>, int>
    decreases end - i,
{
    if i >= end {
        Ok(acc)
    } else {
        match point_spec(s, ls[i].0, ls[i].1) {
            None => Err(i),
            Some(p) => block_from(s, ls, i + 1, end, acc.push(p)),
        }
    }
}

/// What a Bézier curve with control points `p` is drawn as: its control
/// polygon, then its tessellation at each resolution from four to nineteen.
pub open spec fn bezier_output(p: Seq<Point>) -> Seq<Seq<CurvePoint>> {
    seq![p.map_values(|q: Point| exact(q))] + Seq::new(
        (END_RESOLUTION - FIRST_RESOLUTION) as nat,
        |j: int| tessellation(p, j + FIRST_RESOLUTION),
    )
}

pub open spec fn is_blank(s: Seq<u8>, l: (int, int)) -> bool {
    word_spans(s, l.0, l.1).len() == 0
}

/// The polylines of the curves from line `i` on, appended to `acc`, or the
/// first error there.
pub open spec fn scene_from(
    s: Seq<u8>,
    ls: Seq<(int, int)>,
    i: int,
    acc: Seq<Seq<CurvePoint>>,
) -> Result<Seq<Seq<CurvePoint>>, ParseError>
    decreases ls.len() - i,
{
    if i >= ls.len() || i < 0 {
        Ok(acc)
    } else if is_blank(s, ls[i]) {
        scene_from(s, ls, i + 1, acc)
    } else {
        match header_spec(s, ls[i].0, ls[i].1) {
            None => Err(ParseError::MalformedHeader { line: (i + 1) as usize }),
            Some(h) => {
                let end = i + 1 + h.points;
                if end > ls.len() {
                    Err(ParseError::TruncatedInput { line: (i + 1) as usize })
                } else if h.kind == CurveKind::Bezier || h.kind == CurveKind::BSpline {
                    match block_from(s, ls, i + 1, end, Seq::empty()) {
                        Err(j) => Err(ParseError::MalformedPoint { line: (j + 1) as usize }),
                        Ok(p) => scene_from(
                            s,
                            ls,
                            end,
                            if h.kind == CurveKind::Bezier {
                                acc + bezier_output(p)
                            } else {
                                acc
                            },
                        ),
                    }
                } else {
                    scene_from(s, ls, end, acc)
                }
            },
        }
    }
}

/// The polylines that the scene text `s` describes, or the first error in it.
pub open spec fn scene(s: Seq<u8>) -> Result<Seq<Seq<CurvePoint>>, ParseError> {
    scene_from(s, line_spans(s), 0, Seq::empty())
}

pub open spec fn polylines_view(v: Seq<Vec<CurvePoint>>) -> Seq<Seq<CurvePoint>> {
    v.map_values(|p: Vec<CurvePoint>| p@)
}

fn tag_is(s: &[u8], a: usize, t0: u8, t1: u8, t2: u8, t3: u8) -> (r: bool)
    requires
        a + 4 <= s@.len(),
    ensures
        r == (s@.subrange(a as int, a + 4) == seq![t0, t1, t2, t3]),
{
    let r = s[a] == t0 && s[a + 1] == t1 && s[a + 2] == t2 && s[a + 3] == t3;
    assert(r ==> s@.subrange(a as int, a + 4) =~= seq![t0, t1, t2, t3]);
    assert(s@.subrange(a as int, a + 4) == seq![t0, t1, t2, t3] ==> s@.subrange(a as int, a + 4)[3] == t3);
    r
}

/// The kind of curve that the tag `s[a..b]` names.
pub fn curve_kind(s: &[u8], a: usize, b: usize) -> (r: CurveKind)
    requires
        a <= b <= s@.len(),
    ensures
        r == kind_of(s@, a as int, b as int),
{
    if b - a != 4 {
        return CurveKind::Unknown;
    }
    if tag_is(s, a, 0x62, 0x65, 0x7a, 0x32) || tag_is(s, a, 0x62, 0x65, 0x7a, 0x33) {
        CurveKind::Bezier
    } else if tag_is(s, a, 0x62, 0x73, 0x70, 0x32) || tag_is(s, a, 0x62, 0x73, 0x70, 0x33) {
        CurveKind::BSpline
    } else if tag_is(s, a, 0x63, 0x69, 0x72, 0x63) || tag_is(s, a, 0x73, 0x72, 0x65, 0x76)
        || tag_is(s, a, 0x67, 0x63, 0x79, 0x6c) {
        CurveKind::Reserved
    } else {
        CurveKind::Unknown
    }
}

/// Reads the curve header on the line `s[a..b]`: tag, name, step count and
/// point count, separated by whitespace.
pub fn parse_curve_info(s: &[u8], a: usize, b: usize) -> (r: Option<CurveInfo>)
    requires
        a <= b <= s@.len(),
    ensures
        r == header_spec(s@, a as int, b as int),
{
    let w = split_words(s, a, b);
    if w.len() != 4 {
        return None;
    }
    let steps = natural_value(s, w[2].0, w[2].1, usize::MAX as u64);
    let points = natural_value(s, w[3].0, w[3].1, usize::MAX as u64);
    match (steps, points) {
        (Some(steps), Some(points)) => {
            let info = CurveInfo {
                kind: curve_kind(s, w[0].0, w[0].1),
                name_start: w[1].0,
                name_end: w[1].1,
                steps: steps as usize,
                points: points as usize,
            };
            if info.kind == CurveKind::Bezier && info.points != 4 {
                None
            } else {
                Some(info)
            }
        },
        _ => None,
    }
}

/// Whether every word of `w` from `from` on is a coordinate.
pub fn all_coordinates(s: &[u8], w: &Vec<(usize, usize)>, from: usize) -> (r: bool)
    requires
        forall|k: int| 0 <= k < w@.len() ==> #[trigger] w@[k].0 <= w@[k].1 <= s@.len(),
    ensures
        r == coordinate_words(s@, w@.map_values(|p: (usize, usize)| (p.0 as int, p.1 as int)), from as int),
{
    let ghost ws = w@.map_values(|p: (usize, usize)| (p.0 as int, p.1 as int));
    reveal(coordinate_word);
    let mut k = from;
    while k < w.len()
        invariant
            forall|j: int| 0 <= j < w@.len() ==> #[trigger] w@[j].0 <= w@[j].1 <= s@.len(),
            ws == w@.map_values(|p: (usize, usize)| (p.0 as int, p.1 as int)),
            from <= k,
            forall|j: int| from <= j < k && j < w@.len() ==> coordinate_word(s@, #[trigger] ws[j]),
        decreases w@.len() - k,
    {
        let (a, b) = w[k];
        assert(ws[k as int] == (a as int, b as int));
        reveal(coordinate_word);
        if coordinate(s, a, b).is_none() {
            return false;
        }
        k = k + 1;
    }
    true
}

/// Reads the point on the line `s[a..b]`.
pub fn parse_point(s: &[u8], a: usize, b: usize) -> (r: Option<Point>)
    requires
        a <= b <= s@.len(),
    ensures
        r == point_spec(s@, a as int, b as int),
{
    let (lo, hi) = trim_brackets(s, a, b);
    let w = split_words(s, lo, hi);
    let ghost ws = w@.map_values(|p: (usize, usize)| (p.0 as int, p.1 as int));
    assert(ws =~= word_spans(s@, lo as int, hi as int));
    if w.len() < 2 || !all_coordinates(s, &w, 0) {
        return None;
    }
    reveal(coordinate_word);
    assert(coordinate_word(s@, ws[0]) && coordinate_word(s@, ws[1]));
    assert(w.len() >= 3 ==> coordinate_word(s@, ws[2]));
    let x = coordinate(s, w[0].0, w[0].1);
    let y = coordinate(s, w[1].0, w[1].1);
    let z = if w.len() >= 3 {
        coordinate(s, w[2].0, w[2].1)
    } else {
        Some(0)
    };
    match (x, y, z) {
        (Some(x), Some(y), Some(z)) => Some(Point { x, y, z }),
        _ => None,
    }
}

/// Reads the points on lines `start..end`, or gives the index of the
/// first of those lines that is not a point.
fn parse_block(s: &[u8], lines: &Vec<(usize, usize)>, start: usize, end: usize) -> (r: Result<
    Vec<Point>,
    usize,
>)
    requires
        start <= end <= lines@.len(),
        spans_match(lines@, line_spans(s@), s@.len() as int),
    ensures
        match r {
            Ok(p) => block_from(s@, line_spans(s@), start as int, end as int, Seq::empty()) == Ok::<
                Seq<Point>,
                int,
            >(p@) && p@.len() == end - start,
            Err(j) => block_from(s@, line_spans(s@), start as int, end as int, Seq::empty())
                == Err::<Seq<Point>, int>(j as int) && start <= j < end,
        },
{
    let ghost ls = line_spans(s@);
    let mut acc: Vec<Point> = Vec::new();
    let mut i = start;
    while i < end
        invariant
            start <= i <= end <= lines@.len(),
            spans_match(lines@, ls, s@.len() as int),
            ls == line_spans(s@),
            acc@.len() == i - start,
            block_from(s@, ls, start as int, end as int, Seq::empty()) == block_from(
                s@,
                ls,
                i as int,
                end as int,
                acc@,
            ),
        decreases end - i,
    {
        let (a, b) = lines[i];
        match parse_point(s, a, b) {
            None => {
                return Err(i);
            },
            Some(p) => {
                acc.push(p);
            },
        }
        i = i + 1;
    }
    Ok(acc)
}

/// The polylines drawn for a Bézier curve: its control polygon, then its
/// tessellation at each resolution from four to nineteen.
pub fn bezier_polylines(p: &Vec<Point>) -> (r: Vec<Vec<CurvePoint>>)
    requires
        p@.len() == 4,
    ensures
        polylines_view(r@) == bezier_output(p@),
{
    let mut raw: Vec<CurvePoint> = Vec::new();
    let mut k: usize = 0;
    while k < p.len()
        invariant
            k <= p@.len(),
            raw@ == p@.subrange(0, k as int).map_values(|q: Point| exact(q)),
        decreases p@.len() - k,
    {
        raw.push(CurvePoint::from_point(p[k]));
        k = k + 1;
        assert(raw@ =~= p@.subrange(0, k as int).map_values(|q: Point| exact(q)));
    }
    assert(p@.subrange(0, 4) =~= p@);
    let mut r: Vec<Vec<CurvePoint>> = Vec::new();
    r.push(raw);
    assert(polylines_view(r@) =~= seq![p@.map_values(|q: Point| exact(q))]);
    let mut n = FIRST_RESOLUTION;
    while n < END_RESOLUTION
        invariant
            p@.len() == 4,
            FIRST_RESOLUTION <= n <= END_RESOLUTION,
            polylines_view(r@) == seq![p@.map_values(|q: Point| exact(q))] + Seq::new(
                (n - FIRST_RESOLUTION) as nat,
                |j: int| tessellation(p@, j + FIRST_RESOLUTION),
            ),
        decreases END_RESOLUTION - n,
    {
        let t = tessellate(p, n);
        let ghost before = r@;
        r.push(t);
        assert(polylines_view(r@) =~= polylines_view(before).push(t@));
        n = n + 1;
        assert(polylines_view(r@) =~= seq![p@.map_values(|q: Point| exact(q))] + Seq::new(
            (n - FIRST_RESOLUTION) as nat,
            |j: int| tessellation(p@, j + FIRST_RESOLUTION),
        ));
    }
    r
}

pub open spec fn result_view(r: Result<Vec<Vec<CurvePoint>>, ParseError>) -> Result<
    Seq<Seq<CurvePoint>>,
    ParseError,
> {
    match r {
        Ok(v) => Ok(polylines_view(v@)),
        Err(e) => Err(e),
    }
}

/// Reads a scene: each curve is a header line (tag, name, step count, point
/// count) followed by that many point lines; blank lines between curves are
/// passed over. Gives the polylines of its Bézier curves in order, or the
/// first error.
pub fn parse_swp(text: &[u8]) -> (r: Result<Vec<Vec<CurvePoint>>, ParseError>)
    ensures
        result_view(r) == scene(text@),
{
    let ghost s = text@;
    let ghost ls = line_spans(s);
    let lines = split_lines(text);
    let mut out: Vec<Vec<CurvePoint>> = Vec::new();
    let mut cur: usize = 0;
    assert(polylines_view(out@) =~= Seq::empty());
    while cur < lines.len()
        invariant
            cur <= lines@.len(),
            spans_match(lines@, ls, s.len() as int),
            ls == line_spans(s),
            s == text@,
            scene(s) == scene_from(s, ls, cur as int, polylines_view(out@)),
        decreases lines@.len() - cur,
    {
        let (a, b) = lines[cur];
        let words = split_words(text, a, b);
        if words.len() == 0 {
            cur = cur + 1;
            continue;
        }
        let info = match parse_curve_info(text, a, b) {
            None => {
                return Err(ParseError::MalformedHeader { line: cur + 1 });
            },
            Some(info) => info,
        };
        if info.points > lines.len() - cur - 1 {
            return Err(ParseError::TruncatedInput { line: cur + 1 });
        }
        let end = cur + 1 + info.points;
        if info.kind == CurveKind::Bezier || info.kind == CurveKind::BSpline {
            match parse_block(text, &lines, cur + 1, end) {
                Err(j) => {
                    return Err(ParseError::MalformedPoint { line: j + 1 });
                },
                Ok(points) => {
                    if info.kind == CurveKind::Bezier {
                        let mut polylines = bezier_polylines(&points);
                        let ghost before = out@;
                        let ghost added = polylines@;
                        out.append(&mut polylines);
                        assert(polylines_view(out@) =~= polylines_view(before) + polylines_view(added));
                    }
                },
            }
        }
        cur = end;
    }
    Ok(out)
}

/// A header on line `i` that promises more point lines than the text has
/// left makes the scene fail there with `TruncatedInput`, whatever came
/// before it.
pub proof fn lemma_truncated_block(s: Seq<u8>, i: int, acc: Seq<Seq<CurvePoint>>)
    requires
        0 <= i < line_spans(s).len(),
        !is_blank(s, line_spans(s)[i]),
        header_spec(s, line_spans(s)[i].0, line_spans(s)[i].1) is Some,
        i + 1 + header_spec(s, line_spans(s)[i].0, line_spans(s)[i].1)->Some_0.points
            > line_spans(s).len(),
    ensures
        scene_from(s, line_spans(s), i, acc) == Err::<Seq<Seq<CurvePoint>>, ParseError>(
            ParseError::TruncatedInput { line: (i + 1) as usize },
        ),
        i == 0 ==> scene(s) == Err::<Seq<Seq<CurvePoint>>, ParseError>(
            ParseError::TruncatedInput { line: 1 },
        ),
{
}

/// A scene of one Bézier header followed by its four point lines gives
/// seventeen polylines: the control polygon, then the tessellations at
/// resolutions four to nineteen.
pub proof fn lemma_single_bezier_scene(s: Seq<u8>)
    requires
        line_spans(s).len() == 5,
        !is_blank(s, line_spans(s)[0]),
        header_spec(s, line_spans(s)[0].0, line_spans(s)[0].1) is Some,
        header_spec(s, line_spans(s)[0].0, line_spans(s)[0].1)->Some_0.kind == CurveKind::Bezier,
        forall|k: int| 1 <= k < 5 ==> (#[trigger] point_spec(s, line_spans(s)[k].0, line_spans(s)[k].1)) is Some,
    ensures
        scene(s) is Ok,
        scene(s)->Ok_0.len() == 17,
        scene(s)->Ok_0 == bezier_output(
            seq![
                point_spec(s, line_spans(s)[1].0, line_spans(s)[1].1)->Some_0,
                point_spec(s, line_spans(s)[2].0, line_spans(s)[2].1)->Some_0,
                point_spec(s, line_spans(s)[3].0, line_spans(s)[3].1)->Some_0,
                point_spec(s, line_spans(s)[4].0, line_spans(s)[4].1)->Some_0,
            ],
        ),
{
    let ls = line_spans(s);
    let pts = seq![
        point_spec(s, ls[1].0, ls[1].1)->Some_0,
        point_spec(s, ls[2].0, ls[2].1)->Some_0,
        point_spec(s, ls[3].0, ls[3].1)->Some_0,
        point_spec(s, ls[4].0, ls[4].1)->Some_0,
    ];
    assert(point_spec(s, ls[1].0, ls[1].1) is Some);
    assert(point_spec(s, ls[2].0, ls[2].1) is Some);
    assert(point_spec(s, ls[3].0, ls[3].1) is Some);
    assert(point_spec(s, ls[4].0, ls[4].1) is Some);
    reveal_with_fuel(block_from, 5);
    assert(block_from(s, ls, 1, 5, Seq::empty()) == Ok::<Seq<Point>, int>(pts)) by {
        assert(Seq::<Point>::empty().push(pts[0]).push(pts[1]).push(pts[2]).push(pts[3]) =~= pts);
    }
    assert(scene_from(s, ls, 5, Seq::<Seq<CurvePoint>>::empty() + bezier_output(pts)) == Ok::<
        Seq<Seq<CurvePoint>>,
        ParseError,
    >(Seq::<Seq<CurvePoint>>::empty() + bezier_output(pts)));
    assert(Seq::<Seq<CurvePoint>>::empty() + bezier_output(pts) =~= bezier_output(pts));
    assert(bezier_output(pts).len() == 17);
}

} // verus!
