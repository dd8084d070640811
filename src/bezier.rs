use vstd::prelude::*;

use crate::geometry::{exact, same_position, CurvePoint, Point};

verus! {

/// Largest step count that a tessellation accepts: it keeps every exact
/// intermediate value within 128 bits.
pub const MAX_STEPS: usize = 1_000_000;

/// Linear interpolation between `a` and `b` at parameter `i / m`, scaled
/// by `m` so that it stays an integer.
pub open spec fn lerp(a: int, b: int, i: int, m: int) -> int {
    (m - i) * a + i * b
}

/// de Casteljau's construction on one coordinate of the cubic control
/// polygon `a, b, c, d` at parameter `i / m`: three interpolations, then
/// two, then one. The result is scaled by `m * m * m`.
pub open spec fn casteljau(a: int, b: int, c: int, d: int, i: int, m: int) -> int {
    let ab = lerp(a, b, i, m);
    let bc = lerp(b, c, i, m);
    let cd = lerp(c, d, i, m);
    lerp(lerp(ab, bc, i, m), lerp(bc, cd, i, m), i, m)
}

/// The point of the curve with control points `p` at parameter `i / m`.
pub open spec fn curve_point(p: Seq<Point>, i: int, m: int) -> CurvePoint {
    CurvePoint {
        x: casteljau(p[0].x as int, p[1].x as int, p[2].x as int, p[3].x as int, i, m) as i128,
        y: casteljau(p[0].y as int, p[1].y as int, p[2].y as int, p[3].y as int, i, m) as i128,
        z: casteljau(p[0].z as int, p[1].z as int, p[2].z as int, p[3].z as int, i, m) as i128,
        den: (m * m * m) as u64,
    }
}

/// The polyline of `n` points approximating the cubic curve with control
/// points `p`: the end points are the first and last control points, and
/// point `k` in between lies on the curve at parameter `k / (n - 1)`.
pub open spec fn tessellation(p: Seq<Point>, n: int) -> Seq<CurvePoint> {
    Seq::new(
        n as nat,
        |k: int|
            if k == 0 {
                exact(p[0])
            } else if k == n - 1 {
                exact(p[3])
            } else {
                curve_point(p, k, n - 1)
            },
    )
}

proof fn lemma_lerp_bound(a: int, b: int, i: int, m: int, bound: int)
    requires
        0 <= i <= m,
        -bound <= a <= bound,
        -bound <= b <= bound,
    ensures
        -((m - i) * bound) <= (m - i) * a <= (m - i) * bound,
        -(i * bound) <= i * b <= i * bound,
        -(m * bound) <= lerp(a, b, i, m) <= m * bound,
{
    assert(-((m - i) * bound) <= (m - i) * a <= (m - i) * bound) by (nonlinear_arith)
        requires
            0 <= m - i,
            -bound <= a <= bound,
    ;
    assert(-(i * bound) <= i * b <= i * bound) by (nonlinear_arith)
        requires
            0 <= i,
            -bound <= b <= bound,
    ;
    assert((m - i) * bound + i * bound == m * bound) by (nonlinear_arith);
}

fn lerp_exec(a: i128, b: i128, i: i128, m: i128, Ghost(bound): Ghost<int>) -> (r: i128)
    requires
        0 <= i <= m,
        -bound <= a <= bound,
        -bound <= b <= bound,
        m * bound < 0x4000_0000_0000_0000_0000_0000_0000_0000,
    ensures
        r == lerp(a as int, b as int, i as int, m as int),
        -(m * bound) <= r <= m * bound,
{
    proof {
        lemma_lerp_bound(a as int, b as int, i as int, m as int, bound);
        assert((m - i) * bound <= m * bound) by (nonlinear_arith)
            requires
                0 <= i <= m,
                0 <= bound,
        ;
        assert(i * bound <= m * bound) by (nonlinear_arith)
            requires
                0 <= i <= m,
                0 <= bound,
        ;
    }
    (m - i) * a + i * b
}

fn casteljau_exec(a: i64, b: i64, c: i64, d: i64, i: i128, m: i128) -> (r: i128)
    requires
        1 <= i < m,
        m < MAX_STEPS,
    ensures
        r == casteljau(a as int, b as int, c as int, d as int, i as int, m as int),
{
    let ghost bound: int = 0x8000_0000_0000_0000;
    proof {
        assert(m * bound < m * (m * bound) < m * (m * (m * bound))
            < 0x4000_0000_0000_0000_0000_0000_0000_0000) by (nonlinear_arith)
            requires
                1 < m < 1_000_000,
                bound == 0x8000_0000_0000_0000,
        ;
    }
    let ab = lerp_exec(a as i128, b as i128, i, m, Ghost(bound));
    let bc = lerp_exec(b as i128, c as i128, i, m, Ghost(bound));
    let cd = lerp_exec(c as i128, d as i128, i, m, Ghost(bound));
    let abc = lerp_exec(ab, bc, i, m, Ghost(m * bound));
    let bcd = lerp_exec(bc, cd, i, m, Ghost(m * bound));
    lerp_exec(abc, bcd, i, m, Ghost(m * (m * bound)))
}

/// Approximates the cubic Bézier curve with control points `p` by a
/// polyline of `steps` points, by de Casteljau's construction. The first
/// and last points are the end control points, copied exactly.
pub fn tessellate(p: &Vec<Point>, steps: usize) -> (r: Vec<CurvePoint>)
    requires
        p@.len() == 4,
        2 <= steps <= MAX_STEPS,
    ensures
        r@ == tessellation(p@, steps as int),
        r@.len() == steps,
        r@[0] == exact(p@[0]),
        r@[steps - 1] == exact(p@[3]),
{
    let m: i128 = (steps - 1) as i128;
    proof {
        assert(m * m <= m * m * m < 0x1_0000_0000_0000_0000) by (nonlinear_arith)
            requires
                1 <= m < 1_000_000,
        ;
    }
    let den: u64 = (m * m * m) as u64;
    let mut res: Vec<CurvePoint> = Vec::new();
    res.push(CurvePoint::from_point(p[0]));
    let mut i: usize = 1;
    while i < steps - 1
        invariant
            p@.len() == 4,
            2 <= steps <= MAX_STEPS,
            m == steps - 1,
            den == m * m * m,
            1 <= i <= steps - 1,
            res@.len() == i,
            forall|k: int| 0 <= k < i ==> res@[k] == tessellation(p@, steps as int)[k],
        decreases steps - i,
    {
        let t = i as i128;
        let q = CurvePoint {
            x: casteljau_exec(p[0].x, p[1].x, p[2].x, p[3].x, t, m),
            y: casteljau_exec(p[0].y, p[1].y, p[2].y, p[3].y, t, m),
            z: casteljau_exec(p[0].z, p[1].z, p[2].z, p[3].z, t, m),
            den,
        };
        res.push(q);
        i = i + 1;
    }
    res.push(CurvePoint::from_point(p[3]));
    assert(res@ =~= tessellation(p@, steps as int));
    res
}

proof fn lemma_cross_scaled(v: int, cube: int, d: int)
    ensures
        v * (cube * d) == (cube * v) * d,
{
    assert(v * (cube * d) == (cube * v) * d) by (nonlinear_arith);
}

/// The exact values of the construction stay within 128 bits.
proof fn lemma_casteljau_fits(a: int, b: int, c: int, d: int, i: int, m: int)
    requires
        -0x8000_0000_0000_0000 <= a < 0x8000_0000_0000_0000,
        -0x8000_0000_0000_0000 <= b < 0x8000_0000_0000_0000,
        -0x8000_0000_0000_0000 <= c < 0x8000_0000_0000_0000,
        -0x8000_0000_0000_0000 <= d < 0x8000_0000_0000_0000,
        0 <= i <= m,
        m < 1_000_000,
    ensures
        -0x4000_0000_0000_0000_0000_0000_0000_0000 < casteljau(a, b, c, d, i, m)
            < 0x4000_0000_0000_0000_0000_0000_0000_0000,
{
    let bound: int = 0x8000_0000_0000_0000;
    assert(0 <= m * bound <= m * (m * bound) <= m * (m * (m * bound))
        < 0x4000_0000_0000_0000_0000_0000_0000_0000) by (nonlinear_arith)
        requires
            0 <= m < 1_000_000,
            bound == 0x8000_0000_0000_0000,
    ;
    let ab = lerp(a, b, i, m);
    let bc = lerp(b, c, i, m);
    let cd = lerp(c, d, i, m);
    lemma_lerp_bound(a, b, i, m, bound);
    lemma_lerp_bound(b, c, i, m, bound);
    lemma_lerp_bound(c, d, i, m, bound);
    lemma_lerp_bound(ab, bc, i, m, m * bound);
    lemma_lerp_bound(bc, cd, i, m, m * bound);
    lemma_lerp_bound(lerp(ab, bc, i, m), lerp(bc, cd, i, m), i, m, m * (m * bound));
}

proof fn lemma_lerp_scaled(x: int, y: int, s: int, c: int, k: int, m: int)
    ensures
        lerp(s * x, s * y, c * k, c * m) == (s * c) * lerp(x, y, k, m),
{
    assert(c * m - c * k == c * (m - k)) by (nonlinear_arith);
    assert((c * (m - k)) * (s * x) == (s * c) * ((m - k) * x)) by (nonlinear_arith);
    assert((c * k) * (s * y) == (s * c) * (k * y)) by (nonlinear_arith);
    assert((s * c) * ((m - k) * x) + (s * c) * (k * y) == (s * c) * ((m - k) * x + k * y))
        by (nonlinear_arith);
}

proof fn lemma_casteljau_scaled(a: int, b: int, cc: int, d: int, c: int, k: int, m: int)
    ensures
        casteljau(a, b, cc, d, c * k, c * m) == (c * c * c) * casteljau(a, b, cc, d, k, m),
{
    let ab = lerp(a, b, k, m);
    let bc = lerp(b, cc, k, m);
    let cd = lerp(cc, d, k, m);
    assert(a == 1 * a && b == 1 * b && cc == 1 * cc && d == 1 * d);
    lemma_lerp_scaled(a, b, 1, c, k, m);
    lemma_lerp_scaled(b, cc, 1, c, k, m);
    lemma_lerp_scaled(cc, d, 1, c, k, m);
    assert(1 * c == c);
    lemma_lerp_scaled(ab, bc, c, c, k, m);
    lemma_lerp_scaled(bc, cd, c, c, k, m);
    lemma_lerp_scaled(lerp(ab, bc, k, m), lerp(bc, cd, k, m), c * c, c, k, m);
}

/// Tessellating one curve at a finer resolution keeps the coarser
/// polyline's points, in the same order: when `n - 1` divides `n2 - 1`,
/// point `k` of the polyline of `n` points stands at the same position as
/// point `k * (n2 - 1) / (n - 1)` of the polyline of `n2` points. Each
/// point's place in the polyline follows its curve parameter.
pub proof fn lemma_refined_tessellation_agrees(p: Seq<Point>, n: int, c: int, k: int)
    requires
        p.len() == 4,
        2 <= n,
        1 <= c,
        0 <= k < n,
        c * (n - 1) + 1 <= MAX_STEPS,
    ensures
        same_position(
            tessellation(p, n)[k],
            tessellation(p, c * (n - 1) + 1)[c * k],
        ),
{
    let m = n - 1;
    let n2 = c * m + 1;
    assert(c * m >= m) by (nonlinear_arith)
        requires
            1 <= c,
            1 <= m,
    ;
    assert(0 <= c * k < n2) by (nonlinear_arith)
        requires
            1 <= c,
            0 <= k <= m,
            n2 == c * m + 1,
    ;
    if k == 0 {
        assert(c * k == 0) by (nonlinear_arith)
            requires
                k == 0,
        ;
    } else if k == m {
    } else {
        assert(0 < c * k < c * m) by (nonlinear_arith)
            requires
                1 <= c,
                0 < k < m,
        ;
        assert(c * m * (c * m) * (c * m) == (c * c * c) * (m * m * m)) by (nonlinear_arith);
        assert(m * m * m <= (c * c * c) * (m * m * m) < 0x1_0000_0000_0000_0000)
            by (nonlinear_arith)
            requires
                1 <= c,
                1 <= m,
                c * m < 1_000_000,
        ;
        assert(m * m * m < 0x1_0000_0000_0000_0000);
        let a = tessellation(p, n)[k];
        let b = tessellation(p, n2)[c * k];
        lemma_casteljau_scaled(p[0].x as int, p[1].x as int, p[2].x as int, p[3].x as int, c, k, m);
        lemma_casteljau_scaled(p[0].y as int, p[1].y as int, p[2].y as int, p[3].y as int, c, k, m);
        lemma_casteljau_scaled(p[0].z as int, p[1].z as int, p[2].z as int, p[3].z as int, c, k, m);
        lemma_casteljau_fits(p[0].x as int, p[1].x as int, p[2].x as int, p[3].x as int, k, m);
        lemma_casteljau_fits(p[0].y as int, p[1].y as int, p[2].y as int, p[3].y as int, k, m);
        lemma_casteljau_fits(p[0].z as int, p[1].z as int, p[2].z as int, p[3].z as int, k, m);
        lemma_casteljau_fits(p[0].x as int, p[1].x as int, p[2].x as int, p[3].x as int, c * k, c * m);
        lemma_casteljau_fits(p[0].y as int, p[1].y as int, p[2].y as int, p[3].y as int, c * k, c * m);
        lemma_casteljau_fits(p[0].z as int, p[1].z as int, p[2].z as int, p[3].z as int, c * k, c * m);
        let cube = c * c * c;
        let d = m * m * m;
        assert(a.den == d);
        assert(b.den == cube * d);
        lemma_cross_scaled(a.x as int, cube, d);
        lemma_cross_scaled(a.y as int, cube, d);
        lemma_cross_scaled(a.z as int, cube, d);
    }
}

/// One coordinate of a control point: x, y or z for `axis` 0, 1 or 2.
pub open spec fn axis_of(p: Point, axis: int) -> int {
    if axis == 0 {
        p.x as int
    } else if axis == 1 {
        p.y as int
    } else {
        p.z as int
    }
}

/// One numerator of a polyline point: x, y or z for `axis` 0, 1 or 2.
pub open spec fn curve_axis_of(q: CurvePoint, axis: int) -> int {
    if axis == 0 {
        q.x as int
    } else if axis == 1 {
        q.y as int
    } else {
        q.z as int
    }
}

/// The cubic in Bernstein form, with `u = i` and `v = m - i`.
pub open spec fn bernstein(a: int, b: int, c: int, d: int, u: int, v: int) -> int {
    v * v * v * a + 3 * ((v * v * u) * b) + 3 * ((v * u * u) * c) + u * u * u * d
}

proof fn lemma_casteljau_is_bernstein(a: int, b: int, c: int, d: int, i: int, m: int)
    ensures
        casteljau(a, b, c, d, i, m) == bernstein(a, b, c, d, i, m - i),
{
    let v = m - i;
    assert(v * (v * a + i * b) == v * v * a + (v * i) * b) by (nonlinear_arith);
    assert(i * (v * b + i * c) == (v * i) * b + i * i * c) by (nonlinear_arith);
    assert(v * (v * b + i * c) == v * v * b + (v * i) * c) by (nonlinear_arith);
    assert(i * (v * c + i * d) == (v * i) * c + i * i * d) by (nonlinear_arith);
    let l = v * v * a + 2 * ((v * i) * b) + i * i * c;
    let r = v * v * b + 2 * ((v * i) * c) + i * i * d;
    assert(lerp(a, b, i, m) == v * a + i * b);
    assert(lerp(b, c, i, m) == v * b + i * c);
    assert(lerp(c, d, i, m) == v * c + i * d);
    assert(lerp(lerp(a, b, i, m), lerp(b, c, i, m), i, m) == l);
    assert(lerp(lerp(b, c, i, m), lerp(c, d, i, m), i, m) == r);
    assert(v * l == v * (v * v * a) + v * (2 * ((v * i) * b)) + v * (i * i * c)) by (nonlinear_arith)
        requires
            l == v * v * a + 2 * ((v * i) * b) + i * i * c,
    ;
    assert(v * (v * v * a) == v * v * v * a) by (nonlinear_arith);
    assert(v * (2 * ((v * i) * b)) == 2 * ((v * v * i) * b)) by (nonlinear_arith);
    assert(v * (i * i * c) == (v * i * i) * c) by (nonlinear_arith);
    assert(i * r == i * (v * v * b) + i * (2 * ((v * i) * c)) + i * (i * i * d)) by (nonlinear_arith)
        requires
            r == v * v * b + 2 * ((v * i) * c) + i * i * d,
    ;
    assert(i * (v * v * b) == (v * v * i) * b) by (nonlinear_arith);
    assert(i * (2 * ((v * i) * c)) == 2 * ((v * i * i) * c)) by (nonlinear_arith);
    assert(i * (i * i * d) == i * i * i * d) by (nonlinear_arith);
    assert(lerp(l, r, i, m) == v * l + i * r);
}

/// Weights of the Bernstein form: `v^3`, `v^2 u`, `v u^2`, `u^3`, which
/// add up, with factors 1, 3, 3, 1, to `(u + v)^3`.
proof fn lemma_bernstein_weights(u: int, v: int, m: int)
    requires
        u + v == m,
    ensures
        m * m * m == v * v * v + 3 * (v * v * u) + 3 * (v * u * u) + u * u * u,
        u >= 0 && v >= 0 ==> 0 <= v * v * v && 0 <= v * v * u && 0 <= v * u * u && 0 <= u * u * u,
{
    assert(m * m * m == v * v * v + 3 * (v * v * u) + 3 * (v * u * u) + u * u * u) by (nonlinear_arith)
        requires
            u + v == m,
    ;
    if u >= 0 && v >= 0 {
        assert(0 <= v * v * v && 0 <= v * v * u && 0 <= v * u * u && 0 <= u * u * u) by (nonlinear_arith)
            requires
                u >= 0,
                v >= 0,
        ;
    }
}

proof fn lemma_bernstein_steps_up(a: int, b: int, c: int, d: int, u: int, v: int)
    requires
        a <= b <= c <= d,
        0 <= u,
        1 <= v,
    ensures
        bernstein(a, b, c, d, u, v) <= bernstein(a, b, c, d, u + 1, v - 1),
{
    let v1 = v - 1;
    let u1 = u + 1;
    lemma_bernstein_weights(u, v, u + v);
    lemma_bernstein_weights(u1, v1, u + v);
    assert(u1 + v1 == u + v);
    let x = v * v * v;
    let y = v * v * u;
    let z = v * u * u;
    let w = u * u * u;
    let x1 = v1 * v1 * v1;
    let y1 = v1 * v1 * u1;
    let z1 = v1 * u1 * u1;
    let w1 = u1 * u1 * u1;
    assert(x1 <= x) by (nonlinear_arith)
        requires
            x1 == v1 * v1 * v1,
            x == v * v * v,
            v1 == v - 1,
            v >= 1,
    ;
    assert(w <= w1) by (nonlinear_arith)
        requires
            w == u * u * u,
            w1 == u1 * u1 * u1,
            u1 == u + 1,
            u >= 0,
    ;
    assert(3 * z1 + w1 - (3 * z + w) == 6 * (u * v1) + 3 * (u + v) - 2) by (nonlinear_arith)
        requires
            z == v * u * u,
            w == u * u * u,
            z1 == v1 * u1 * u1,
            w1 == u1 * u1 * u1,
            v1 == v - 1,
            u1 == u + 1,
    ;
    assert(0 <= u * v1) by (nonlinear_arith)
        requires
            u >= 0,
            v1 >= 0,
    ;
    let dx = x1 - x;
    let dy = y1 - y;
    let dz = z1 - z;
    let dw = w1 - w;
    let g = 3 * dz + dw;
    assert(dx + 3 * dy + 3 * dz + dw == 0);
    assert(bernstein(a, b, c, d, u, v) == x * a + 3 * (y * b) + 3 * (z * c) + w * d);
    assert(bernstein(a, b, c, d, u1, v1) == x1 * a + 3 * (y1 * b) + 3 * (z1 * c) + w1 * d);
    assert(x1 * a - x * a == dx * a && y1 * b - y * b == dy * b && z1 * c - z * c == dz * c
        && w1 * d - w * d == dw * d) by (nonlinear_arith)
        requires
            dx == x1 - x,
            dy == y1 - y,
            dz == z1 - z,
            dw == w1 - w,
    ;
    assert(dx * b + 3 * (dy * b) + 3 * (dz * b) + dw * b == 0) by (nonlinear_arith)
        requires
            dx + 3 * dy + 3 * dz + dw == 0,
    ;
    assert(dx * (a - b) == dx * a - dx * b) by (nonlinear_arith);
    assert(g * (c - b) == 3 * (dz * c) + dw * c - 3 * (dz * b) - dw * b) by (nonlinear_arith)
        requires
            g == 3 * dz + dw,
    ;
    assert(dw * (d - c) == dw * d - dw * c) by (nonlinear_arith);
    assert(0 <= dx * (a - b)) by (nonlinear_arith)
        requires
            dx <= 0,
            a - b <= 0,
    ;
    assert(0 <= g * (c - b)) by (nonlinear_arith)
        requires
            g >= 0,
            c - b >= 0,
    ;
    assert(0 <= dw * (d - c)) by (nonlinear_arith)
        requires
            dw >= 0,
            d - c >= 0,
    ;
}

proof fn lemma_bernstein_bounds(a: int, b: int, c: int, d: int, u: int, v: int, m: int)
    requires
        a <= b <= c <= d,
        0 <= u,
        0 <= v,
        u + v == m,
    ensures
        m * m * m * a <= bernstein(a, b, c, d, u, v) <= m * m * m * d,
{
    let x = v * v * v;
    let y = v * v * u;
    let z = v * u * u;
    let w = u * u * u;
    let mc = m * m * m;
    lemma_bernstein_weights(u, v, m);
    assert(bernstein(a, b, c, d, u, v) == x * a + 3 * (y * b) + 3 * (z * c) + w * d);
    assert(mc * a == x * a + 3 * (y * a) + 3 * (z * a) + w * a) by (nonlinear_arith)
        requires
            mc == x + 3 * y + 3 * z + w,
    ;
    assert(mc * d == x * d + 3 * (y * d) + 3 * (z * d) + w * d) by (nonlinear_arith)
        requires
            mc == x + 3 * y + 3 * z + w,
    ;
    assert(x * a <= x * d && y * a <= y * b <= y * d && z * a <= z * c <= z * d && w * a <= w * d)
        by (nonlinear_arith)
        requires
            0 <= x,
            0 <= y,
            0 <= z,
            0 <= w,
            a <= b <= c <= d,
    ;
}

/// Along any axis on which the control points come in order, the
/// tessellation's points come in the same order: each point is no further
/// back than the one before it, so the index order of the points is the
/// order of their parameters along the curve.
pub proof fn lemma_tessellation_monotone(p: Seq<Point>, n: int, axis: int, k: int)
    requires
        p.len() == 4,
        2 <= n <= MAX_STEPS,
        0 <= axis < 3,
        axis_of(p[0], axis) <= axis_of(p[1], axis) <= axis_of(p[2], axis) <= axis_of(p[3], axis),
        0 <= k < n - 1,
    ensures
        curve_axis_of(tessellation(p, n)[k], axis) * tessellation(p, n)[k + 1].den
            <= curve_axis_of(tessellation(p, n)[k + 1], axis) * tessellation(p, n)[k].den,
{
    let a = axis_of(p[0], axis);
    let b = axis_of(p[1], axis);
    let c = axis_of(p[2], axis);
    let d = axis_of(p[3], axis);
    let m = n - 1;
    let t = tessellation(p, n);
    assert(1 <= m * m * m < 0x1_0000_0000_0000_0000) by (nonlinear_arith)
        requires
            1 <= m < 1_000_000,
    ;
    let cube = m * m * m;
    // The numerator of an interior point is the Bernstein form over m^3.
    assert forall|i: int| 0 < i < m implies curve_axis_of(#[trigger] t[i], axis) == bernstein(a, b, c, d, i, m - i)
        && t[i].den == cube by {
        lemma_casteljau_is_bernstein(a, b, c, d, i, m);
        lemma_casteljau_fits(p[0].x as int, p[1].x as int, p[2].x as int, p[3].x as int, i, m);
        lemma_casteljau_fits(p[0].y as int, p[1].y as int, p[2].y as int, p[3].y as int, i, m);
        lemma_casteljau_fits(p[0].z as int, p[1].z as int, p[2].z as int, p[3].z as int, i, m);
    }
    // The Bernstein form stays between m^3 a and m^3 d and rises with i.
    lemma_bernstein_steps_up(a, b, c, d, k, m - k);
    lemma_bernstein_bounds(a, b, c, d, k, m - k, m);
    lemma_bernstein_bounds(a, b, c, d, k + 1, m - k - 1, m);
    if k == 0 && k + 1 == m {
        assert(t[k] == exact(p[0]));
        assert(t[k + 1] == exact(p[3]));
        assert(curve_axis_of(t[k], axis) == a && curve_axis_of(t[k + 1], axis) == d);
        assert(curve_axis_of(t[k], axis) * t[k + 1].den <= curve_axis_of(t[k + 1], axis) * t[k].den);
    } else if k == 0 {
        assert(t[k] == exact(p[0]));
        assert(curve_axis_of(t[1], axis) == bernstein(a, b, c, d, 1, m - 1));
        assert(curve_axis_of(t[0], axis) == a);
        assert(t[0].den == 1);
        assert(t[1].den == cube);
        assert(cube * a <= bernstein(a, b, c, d, 1, m - 1));
        assert(curve_axis_of(t[0], axis) * t[1].den <= curve_axis_of(t[1], axis) * t[0].den)
            by (nonlinear_arith)
            requires
                curve_axis_of(t[0], axis) == a,
                cube * a <= curve_axis_of(t[1], axis),
                t[1].den == cube,
                t[0].den == 1,
        ;
    } else if k + 1 == m {
        assert(t[k + 1] == exact(p[3]));
        assert(curve_axis_of(t[k + 1], axis) == d);
        assert(curve_axis_of(t[k], axis) == bernstein(a, b, c, d, k, m - k));
        assert(t[k].den == cube);
        assert(t[k + 1].den == 1);
        assert(bernstein(a, b, c, d, k, m - k) <= cube * d);
        assert(curve_axis_of(t[k], axis) * t[k + 1].den <= curve_axis_of(t[k + 1], axis) * t[k].den)
            by (nonlinear_arith)
            requires
                curve_axis_of(t[k], axis) <= cube * d,
                curve_axis_of(t[k + 1], axis) == d,
                t[k].den == cube,
                t[k + 1].den == 1,
        ;
    } else {
        assert(curve_axis_of(t[k], axis) == bernstein(a, b, c, d, k, m - k));
        assert(curve_axis_of(t[k + 1], axis) == bernstein(a, b, c, d, k + 1, m - k - 1));
        assert(curve_axis_of(t[k], axis) * cube <= curve_axis_of(t[k + 1], axis) * cube) by (nonlinear_arith)
            requires
                curve_axis_of(t[k], axis) <= curve_axis_of(t[k + 1], axis),
                cube >= 1,
        ;
    }
}

} // verus!
