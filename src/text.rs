use vstd::prelude::*;

verus! {

/// ASCII whitespace: space, tab, line feed, vertical tab, form feed, carriage return.
pub open spec fn is_space(c: u8) -> bool {
    c == 0x20u8 || (0x09u8 <= c && c <= 0x0du8)
}

pub open spec fn is_digit(c: u8) -> bool {
    0x30u8 <= c && c <= 0x39u8
}

/// The spans `(start, end)` of the maximal runs of non-whitespace bytes
/// in `s[a..n]`, in order.
pub open spec fn word_spans(s: Seq<u8>, a: int, n: int) -> Seq<(int, int)>
    decreases n - a,
{
    if n <= a {
        Seq::empty()
    } else {
        let w = word_spans(s, a, n - 1);
        if is_space(s[n - 1]) {
            w
        } else if n >= a + 2 && !is_space(s[n - 2]) {
            w.update(w.len() - 1, (w.last().0, n))
        } else {
            w.push((n - 1, n))
        }
    }
}

/// The spans of the pieces of the first `n` bytes of `s` between line
/// feeds; the last piece runs to `n`.
pub open spec fn piece_spans(s: Seq<u8>, n: int) -> Seq<(int, int)>
    decreases n,
{
    if n <= 0 {
        seq![(0, 0)]
    } else {
        let w = piece_spans(s, n - 1);
        if s[n - 1] == 0x0au8 {
            w.push((n, n))
        } else {
            w.update(w.len() - 1, (w.last().0, n))
        }
    }
}

/// The spans of the lines of `s`: the pieces between line feeds, without
/// the empty piece after a final line feed.
pub open spec fn line_spans(s: Seq<u8>) -> Seq<(int, int)> {
    let w = piece_spans(s, s.len() as int);
    if w.last().0 == w.last().1 {
        w.drop_last()
    } else {
        w
    }
}

/// `v` holds, as machine integers, exactly the spans `w`, each within
/// `0..len`.
pub open spec fn spans_match(v: Seq<(usize, usize)>, w: Seq<(int, int)>, len: int) -> bool {
    &&& v.len() == w.len()
    &&& forall|k: int|
        0 <= k < v.len() ==> v[k].0 == w[k].0 && v[k].1 == w[k].1 && v[k].0 <= v[k].1 <= len
}

/// Splits `s[a..b]` into its whitespace-separated words, given as spans of `s`.
pub fn split_words(s: &[u8], a: usize, b: usize) -> (r: Vec<(usize, usize)>)
    requires
        a <= b <= s@.len(),
    ensures
        spans_match(r@, word_spans(s@, a as int, b as int), b as int),
        forall|k: int| 0 <= k < r@.len() ==> a <= #[trigger] r@[k].0 < r@[k].1,
{
    let mut r: Vec<(usize, usize)> = Vec::new();
    let mut i: usize = a;
    while i < b
        invariant
            a <= i <= b <= s@.len(),
            spans_match(r@, word_spans(s@, a as int, i as int), i as int),
            forall|k: int| 0 <= k < r@.len() ==> a <= #[trigger] r@[k].0 < r@[k].1,
            i > a && !is_space(s@[i - 1]) ==> r@.len() > 0 && r@.last().1 == i,
        decreases b - i,
    {
        let c = s[i];
        if c == 0x20u8 || (0x09u8 <= c && c <= 0x0du8) {
        } else if i > a && !(s[i - 1] == 0x20u8 || (0x09u8 <= s[i - 1] && s[i - 1] <= 0x0du8)) {
            let last = r.len() - 1;
            let start = r[last].0;
            r.set(last, (start, i + 1));
        } else {
            r.push((i, i + 1));
        }
        i = i + 1;
        assert(spans_match(r@, word_spans(s@, a as int, i as int), i as int));
    }
    r
}

/// Splits `s` into lines at line feeds; a final line feed ends the last
/// line and starts no new one.
pub fn split_lines(s: &[u8]) -> (r: Vec<(usize, usize)>)
    ensures
        spans_match(r@, line_spans(s@), s@.len() as int),
{
    let mut r: Vec<(usize, usize)> = Vec::new();
    r.push((0, 0));
    let mut i: usize = 0;
    while i < s.len()
        invariant
            i <= s@.len(),
            r@.len() >= 1,
            r@.last().1 == i,
            spans_match(r@, piece_spans(s@, i as int), i as int),
        decreases s@.len() - i,
    {
        if s[i] == 0x0au8 {
            r.push((i + 1, i + 1));
        } else {
            let last = r.len() - 1;
            let start = r[last].0;
            r.set(last, (start, i + 1));
        }
        i = i + 1;
        assert(spans_match(r@, piece_spans(s@, i as int), i as int));
    }
    let last = r.len() - 1;
    if r[last].0 == r[last].1 {
        r.pop();
    }
    assert(spans_match(r@, line_spans(s@), s@.len() as int));
    r
}

/// Bytes taken off both ends of a point line: whitespace and brackets.
pub open spec fn is_trimmed(c: u8) -> bool {
    is_space(c) || c == 0x5bu8 || c == 0x5du8
}

/// The start of `s[a..b]` once brackets and whitespace are taken off its front.
pub open spec fn trim_start(s: Seq<u8>, a: int, b: int) -> int
    decreases b - a,
{
    if a < b && is_trimmed(s[a]) {
        trim_start(s, a + 1, b)
    } else {
        a
    }
}

/// The end of `s[a..b]` once brackets and whitespace are taken off its back.
pub open spec fn trim_end(s: Seq<u8>, a: int, b: int) -> int
    decreases b - a,
{
    if a < b && is_trimmed(s[b - 1]) {
        trim_end(s, a, b - 1)
    } else {
        b
    }
}

fn is_trimmed_byte(c: u8) -> (r: bool)
    ensures
        r == is_trimmed(c),
{
    c == 0x20u8 || (0x09u8 <= c && c <= 0x0du8) || c == 0x5bu8 || c == 0x5du8
}

/// Takes brackets and whitespace off both ends of `s[a..b]`.
pub fn trim_brackets(s: &[u8], a: usize, b: usize) -> (r: (usize, usize))
    requires
        a <= b <= s@.len(),
    ensures
        r.0 == trim_start(s@, a as int, b as int),
        r.1 == trim_end(s@, r.0 as int, b as int),
        a <= r.0 <= r.1 <= b,
{
    let mut lo = a;
    while lo < b && is_trimmed_byte(s[lo])
        invariant
            a <= lo <= b <= s@.len(),
            trim_start(s@, lo as int, b as int) == trim_start(s@, a as int, b as int),
        decreases b - lo,
    {
        lo = lo + 1;
    }
    let mut hi = b;
    while lo < hi && is_trimmed_byte(s[hi - 1])
        invariant
            a <= lo <= hi <= b <= s@.len(),
            trim_end(s@, lo as int, hi as int) == trim_end(s@, lo as int, b as int),
        decreases hi - lo,
    {
        hi = hi - 1;
    }
    (lo, hi)
}

/// The number that the digits of `s[a..b]` spell in decimal; a full stop
/// among them is passed over.
pub open spec fn digits_value(s: Seq<u8>, a: int, b: int) -> nat
    decreases b - a,
{
    if b <= a {
        0
    } else if s[b - 1] == 0x2eu8 {
        digits_value(s, a, b - 1)
    } else {
        10 * digits_value(s, a, b - 1) + digit_of(s[b - 1])
    }
}

/// The value of a decimal digit; other bytes count as zero.
pub open spec fn digit_of(c: u8) -> nat {
    if is_digit(c) {
        (c - 0x30u8) as nat
    } else {
        0
    }
}

/// `s[a..b]` is a non-empty run of decimal digits.
pub open spec fn all_digits(s: Seq<u8>, a: int, b: int) -> bool {
    a < b && forall|k: int| a <= k < b ==> is_digit(#[trigger] s[k])
}

/// The digits of `s[a..b]`, as a number no larger than `cap`: whether they
/// are all decimal digits, and their value capped at `cap`.
fn capped_digits(s: &[u8], a: usize, b: usize, cap: u128) -> (r: (bool, u128))
    requires
        a <= b <= s@.len(),
        1 <= cap <= 0x1_0000_0000_0000_0000_0000_0000,
    ensures
        r.0 == all_digits(s@, a as int, b as int),
        r.1 == if digits_value(s@, a as int, b as int) < cap {
            digits_value(s@, a as int, b as int)
        } else {
            cap as nat
        },
{
    let mut acc: u128 = 0;
    let mut ok = true;
    let mut i = a;
    while i < b
        invariant
            a <= i <= b <= s@.len(),
            1 <= cap <= 0x1_0000_0000_0000_0000_0000_0000,
            acc == if digits_value(s@, a as int, i as int) < cap {
                digits_value(s@, a as int, i as int)
            } else {
                cap as nat
            },
            ok == forall|k: int| a <= k < i ==> is_digit(#[trigger] s@[k]),
        decreases b - i,
    {
        let c = s[i];
        if !(0x30u8 <= c && c <= 0x39u8) {
            ok = false;
        }
        if c != 0x2eu8 && acc < cap {
            let d: u128 = if 0x30u8 <= c && c <= 0x39u8 { (c - 0x30u8) as u128 } else { 0 };
            let next = 10 * acc + d;
            acc = if next < cap { next } else { cap };
        }
        assert(ok == forall|k: int| a <= k < i + 1 ==> is_digit(#[trigger] s@[k]));
        i = i + 1;
    }
    (ok && a < b, acc)
}

/// Where the digits of `s[a..b]` start once a leading sign is passed over;
/// `minus_too` allows `-` besides `+`.
pub open spec fn sign_end(s: Seq<u8>, a: int, b: int, minus_too: bool) -> int {
    if a < b && (s[a] == 0x2bu8 || (minus_too && s[a] == 0x2du8)) {
        a + 1
    } else {
        a
    }
}

/// `s[a..b]` is a natural number in decimal: an optional `+`, then digits.
pub open spec fn natural_syntax(s: Seq<u8>, a: int, b: int) -> bool {
    all_digits(s, sign_end(s, a, b, false), b)
}

/// The value of the natural number written as `s[a..b]`.
pub open spec fn natural_of(s: Seq<u8>, a: int, b: int) -> nat {
    digits_value(s, sign_end(s, a, b, false), b)
}

/// The natural number written in decimal as `s[a..b]`, if it is one and at
/// most `limit`.
pub fn natural_value(s: &[u8], a: usize, b: usize, limit: u64) -> (r: Option<u64>)
    requires
        a <= b <= s@.len(),
    ensures
        r == (if natural_syntax(s@, a as int, b as int) && natural_of(s@, a as int, b as int) <= limit {
            Some(natural_of(s@, a as int, b as int) as u64)
        } else {
            None
        }),
{
    let c = if a < b && s[a] == 0x2bu8 { a + 1 } else { a };
    let (ok, v) = capped_digits(s, c, b, limit as u128 + 1);
    if ok && v <= limit as u128 {
        Some(v as u64)
    } else {
        None
    }
}

/// Coordinates are held in millionths: six decimal places.
pub const PLACES: usize = 6;

pub open spec fn pow10(k: nat) -> nat
    decreases k,
{
    if k == 0 {
        1
    } else {
        10 * pow10((k - 1) as nat)
    }
}

/// The number of full stops in `s[a..b]`.
pub open spec fn dot_count(s: Seq<u8>, a: int, b: int) -> nat
    decreases b - a,
{
    if b <= a {
        0
    } else {
        dot_count(s, a, b - 1) + if s[b - 1] == 0x2eu8 { 1nat } else { 0nat }
    }
}

/// The number of bytes of `s[a..b]` after its first full stop.
pub open spec fn after_dot(s: Seq<u8>, a: int, b: int) -> nat
    decreases b - a,
{
    if b <= a {
        0
    } else if dot_count(s, a, b - 1) > 0 {
        after_dot(s, a, b - 1) + 1
    } else {
        0
    }
}

/// The bytes of `s[a..b]` with full stops left out.
pub open spec fn digit_seq(s: Seq<u8>, a: int, b: int) -> Seq<u8>
    decreases b - a,
{
    if b <= a {
        Seq::empty()
    } else if s[b - 1] == 0x2eu8 {
        digit_seq(s, a, b - 1)
    } else {
        digit_seq(s, a, b - 1).push(s[b - 1])
    }
}

/// The number that the decimal digits `d` spell.
pub open spec fn seq_value(d: Seq<u8>) -> nat
    decreases d.len(),
{
    if d.len() == 0 {
        0
    } else {
        10 * seq_value(d.drop_last()) + digit_of(d.last())
    }
}

pub open spec fn is_exponent_mark(c: u8) -> bool {
    c == 0x65u8 || c == 0x45u8
}

/// The index of the first `e` or `E` in `s[a..b]`, or `b`.
pub open spec fn exponent_mark(s: Seq<u8>, a: int, b: int) -> int
    decreases b - a,
{
    if a >= b {
        b
    } else if is_exponent_mark(s[a]) {
        a
    } else {
        exponent_mark(s, a + 1, b)
    }
}

/// A coordinate written as `s[a..b]`, read as parts: where its mantissa
/// starts (after the sign) and ends (at the exponent mark), and where the
/// exponent's digits start.
pub open spec fn mantissa_start(s: Seq<u8>, a: int, b: int) -> int {
    sign_end(s, a, b, true)
}

pub open spec fn mantissa_end(s: Seq<u8>, a: int, b: int) -> int {
    exponent_mark(s, mantissa_start(s, a, b), b)
}

pub open spec fn exponent_digits(s: Seq<u8>, a: int, b: int) -> int {
    sign_end(s, mantissa_end(s, a, b) + 1, b, true)
}

/// `s[a..b]` is a number in decimal float notation: an optional sign; digits
/// with at most one full stop among them and at least one digit; then,
/// optionally, `e` or `E`, an optional sign and digits.
pub open spec fn coordinate_syntax(s: Seq<u8>, a: int, b: int) -> bool {
    let c = mantissa_start(s, a, b);
    let e = mantissa_end(s, a, b);
    &&& forall|k: int| c <= k < e ==> is_digit(#[trigger] s[k]) || s[k] == 0x2eu8
    &&& dot_count(s, c, e) <= 1
    &&& e - c > dot_count(s, c, e)
    &&& (e == b || all_digits(s, exponent_digits(s, a, b), b))
}

/// The exponent of the coordinate written as `s[a..b]`; zero without one.
pub open spec fn exponent_value(s: Seq<u8>, a: int, b: int) -> int {
    let e = mantissa_end(s, a, b);
    let x = exponent_digits(s, a, b);
    if e == b {
        0
    } else if s[e + 1] == 0x2du8 {
        -digits_value(s, x, b)
    } else {
        digits_value(s, x, b) as int
    }
}

/// The power of ten by which the mantissa's digits, read as one whole
/// number, are scaled to give millionths.
pub open spec fn millionths_shift(s: Seq<u8>, a: int, b: int) -> int {
    exponent_value(s, a, b) - after_dot(s, mantissa_start(s, a, b), mantissa_end(s, a, b)) + PLACES
}

/// How many of the mantissa's leading digits are at or above the
/// millionths place.
pub open spec fn kept_digits(d: Seq<u8>, q: int) -> int {
    if q >= 0 {
        d.len() as int
    } else if d.len() + q >= 0 {
        d.len() + q
    } else {
        0
    }
}

/// Whether the digit just below the millionths place is five or more.
pub open spec fn rounds_up(d: Seq<u8>, q: int) -> bool {
    q < 0 && 0 <= d.len() + q < d.len() && digit_of(d[d.len() + q]) >= 5
}

/// The digits `d`, read as one whole number and scaled by `10^q`, rounded
/// to a whole number (a half rounds up).
pub open spec fn scaled_rounded(d: Seq<u8>, q: int) -> nat {
    let kept = seq_value(d.take(kept_digits(d, q)));
    if q >= 0 {
        kept * pow10(q as nat)
    } else {
        kept + if rounds_up(d, q) { 1nat } else { 0nat }
    }
}

/// The size of the coordinate written as `s[a..b]`, in millionths, rounded
/// to the nearest millionth (a half rounds away from zero).
pub open spec fn coordinate_magnitude(s: Seq<u8>, a: int, b: int) -> nat {
    scaled_rounded(
        digit_seq(s, mantissa_start(s, a, b), mantissa_end(s, a, b)),
        millionths_shift(s, a, b),
    )
}

/// The coordinate written as `s[a..b]`, in millionths of a unit.
pub open spec fn coordinate_value(s: Seq<u8>, a: int, b: int) -> int {
    if a < b && s[a] == 0x2du8 {
        -coordinate_magnitude(s, a, b)
    } else {
        coordinate_magnitude(s, a, b) as int
    }
}

proof fn lemma_pow10_grows(k: nat, j: nat)
    requires
        k <= j,
    ensures
        1 <= pow10(k) <= pow10(j),
    decreases j,
{
    if j > k {
        lemma_pow10_grows(k, (j - 1) as nat);
    } else if k > 0 {
        lemma_pow10_grows((k - 1) as nat, (k - 1) as nat);
    }
}

proof fn lemma_digit_seq_len(s: Seq<u8>, a: int, b: int)
    ensures
        digit_seq(s, a, b).len() <= if b > a { b - a } else { 0 },
        digit_seq(s, a, b).len() + dot_count(s, a, b) == if b > a { b - a } else { 0 },
        after_dot(s, a, b) <= if b > a { b - a } else { 0 },
    decreases b - a,
{
    if b > a {
        lemma_digit_seq_len(s, a, b - 1);
    }
}

fn pow10_exec(k: usize) -> (r: u128)
    requires
        k <= 18,
    ensures
        r == pow10(k as nat),
        1 <= r <= 1_000_000_000_000_000_000,
{
    let mut r: u128 = 1;
    let mut i: usize = 0;
    while i < k
        invariant
            i <= k <= 18,
            r == pow10(i as nat),
        decreases k - i,
    {
        proof {
            lemma_pow10_grows(i as nat, 17);
            reveal_with_fuel(pow10, 19);
        }
        r = r * 10;
        i = i + 1;
    }
    proof {
        lemma_pow10_grows(k as nat, 18);
        reveal_with_fuel(pow10, 19);
    }
    r
}

/// The exponent mark's index in `s[c..b]`, or `b`.
fn find_exponent_mark(s: &[u8], c: usize, b: usize) -> (e: usize)
    requires
        c <= b <= s@.len(),
    ensures
        e == exponent_mark(s@, c as int, b as int),
        c <= e <= b,
{
    let mut e = c;
    while e < b && !(s[e] == 0x65u8 || s[e] == 0x45u8)
        invariant
            c <= e <= b <= s@.len(),
            exponent_mark(s@, e as int, b as int) == exponent_mark(s@, c as int, b as int),
        decreases b - e,
    {
        e = e + 1;
    }
    e
}

/// Reads the mantissa `s[c..e]`: whether it holds only digits and full
/// stops, its number of full stops, of bytes after the first full stop,
/// and of digits.
fn mantissa_counts(s: &[u8], c: usize, e: usize) -> (r: (bool, usize, usize, usize))
    requires
        c <= e <= s@.len(),
    ensures
        r.0 == forall|k: int| c <= k < e ==> is_digit(#[trigger] s@[k]) || s@[k] == 0x2eu8,
        r.1 == dot_count(s@, c as int, e as int),
        r.2 == after_dot(s@, c as int, e as int),
        r.3 == digit_seq(s@, c as int, e as int).len(),
        r.3 + r.1 == e - c,
        r.2 <= e - c,
{
    let mut ok = true;
    let mut dots: usize = 0;
    let mut after: usize = 0;
    let mut n: usize = 0;
    let mut i = c;
    while i < e
        invariant
            c <= i <= e <= s@.len(),
            ok == forall|k: int| c <= k < i ==> is_digit(#[trigger] s@[k]) || s@[k] == 0x2eu8,
            dots == dot_count(s@, c as int, i as int),
            after == after_dot(s@, c as int, i as int),
            n == digit_seq(s@, c as int, i as int).len(),
            n + dots == i - c,
            after <= i - c,
        decreases e - i,
    {
        let ch = s[i];
        if !((0x30u8 <= ch && ch <= 0x39u8) || ch == 0x2eu8) {
            ok = false;
        }
        if dots > 0 {
            after = after + 1;
        }
        if ch == 0x2eu8 {
            dots = dots + 1;
        } else {
            n = n + 1;
        }
        assert(ok == forall|k: int| c <= k < i + 1 ==> is_digit(#[trigger] s@[k]) || s@[k] == 0x2eu8);
        i = i + 1;
    }
    (ok, dots, after, n)
}

pub open spec fn capped(v: nat, cap: nat) -> nat {
    if v < cap {
        v
    } else {
        cap
    }
}

/// The mantissa `s[c..e]` read down to the millionths place: the value of
/// its first `keep` digits, capped at 2^63, and whether digit `rpos` (if
/// `has_round`) is five or more.
fn mantissa_rounded(s: &[u8], c: usize, e: usize, keep: usize, has_round: bool, rpos: usize) -> (r: (u128, bool))
    requires
        c <= e <= s@.len(),
        forall|k: int| c <= k < e ==> is_digit(#[trigger] s@[k]) || s@[k] == 0x2eu8,
        keep <= digit_seq(s@, c as int, e as int).len(),
        has_round ==> rpos < digit_seq(s@, c as int, e as int).len(),
    ensures
        r.0 == capped(seq_value(digit_seq(s@, c as int, e as int).take(keep as int)), 0x8000_0000_0000_0000),
        r.1 == (has_round && digit_of(digit_seq(s@, c as int, e as int)[rpos as int]) >= 5),
{
    let big: u128 = 0x8000_0000_0000_0000;
    let mut acc: u128 = 0;
    let mut j: usize = 0;
    let mut up = false;
    let mut i = c;
    proof {
        lemma_digit_seq_len(s@, c as int, e as int);
    }
    while i < e
        invariant
            c <= i <= e <= s@.len(),
            forall|k: int| c <= k < e ==> is_digit(#[trigger] s@[k]) || s@[k] == 0x2eu8,
            j == digit_seq(s@, c as int, i as int).len(),
            j + dot_count(s@, c as int, i as int) == i - c,
            keep <= digit_seq(s@, c as int, e as int).len() <= e - c,
            big == 0x8000_0000_0000_0000,
            acc == capped(seq_value(digit_seq(s@, c as int, i as int).take(if j < keep { j as int } else { keep as int })), big as nat),
            up == (has_round && rpos < j && digit_of(digit_seq(s@, c as int, i as int)[rpos as int]) >= 5),
        decreases e - i,
    {
        let ch = s[i];
        let ghost before = digit_seq(s@, c as int, i as int);
        proof {
            lemma_digit_seq_len(s@, c as int, i as int);
        }
        if ch != 0x2eu8 {
            assert(digit_seq(s@, c as int, i + 1) == before.push(ch));
            assert(before.push(ch).drop_last() =~= before);
            if j < keep {
                assert(before.take(j as int) =~= before);
                assert(before.push(ch).take(j + 1) =~= before.push(ch));
                if acc < big {
                    let dg: u128 = (ch - 0x30u8) as u128;
                    let next = 10 * acc + dg;
                    acc = if next < big { next } else { big };
                }
            } else {
                assert(before.push(ch).take(keep as int) =~= before.take(keep as int));
            }
            if has_round && j == rpos {
                up = ch >= 0x35u8;
            }
            j = j + 1;
        }
        i = i + 1;
    }
    proof {
        lemma_digit_seq_len(s@, c as int, e as int);
    }
    (acc, up)
}

/// The mantissa `s[c..e]`, of `n` digits, scaled by `10^q` and rounded,
/// if that fits in an `i64`. `shift` is `q`, or, where `q` is too large to
/// hold, a stand-in that gives the same result.
fn scaled_exec(s: &[u8], c: usize, e: usize, n: usize, shift: i128, Ghost(q): Ghost<int>) -> (r: Option<u128>)
    requires
        c <= e <= s@.len(),
        forall|k: int| c <= k < e ==> is_digit(#[trigger] s@[k]) || s@[k] == 0x2eu8,
        n == digit_seq(s@, c as int, e as int).len(),
        -0x1_0000_0000_0000_0000_0000 < shift < 0x1_0000_0000_0000_0000_0000,
        shift == q || (q <= shift && n + shift < 0) || (q >= shift && shift > 18),
    ensures
        r == if scaled_rounded(digit_seq(s@, c as int, e as int), q) <= i64::MAX {
            Some(scaled_rounded(digit_seq(s@, c as int, e as int), q) as u128)
        } else {
            None
        },
{
    let ghost d = digit_seq(s@, c as int, e as int);
    let keep: usize = if shift >= 0 {
        n
    } else if n as i128 + shift >= 0 {
        (n as i128 + shift) as usize
    } else {
        0
    };
    let has_round = shift < 0 && n as i128 + shift >= 0 && n as i128 + shift < n as i128;
    let rpos: usize = if has_round { (n as i128 + shift) as usize } else { 0 };
    assert(keep == kept_digits(d, q));
    let big: u128 = 0x8000_0000_0000_0000;
    let (acc, up) = mantissa_rounded(s, c, e, keep, has_round, rpos);
    assert(up == rounds_up(d, q));
    let ghost kept = seq_value(d.take(keep as int));
    if shift >= 0 {
        if acc == 0 {
            assert(kept == 0);
            assert(kept * pow10(q as nat) == 0) by (nonlinear_arith)
                requires
                    kept == 0,
            ;
            assert(scaled_rounded(d, q) == 0);
            Some(0)
        } else if acc >= big || shift > 18 {
            proof {
                lemma_pow10_grows(0, q as nat);
                if shift > 18 {
                    lemma_pow10_grows(19, q as nat);
                    reveal_with_fuel(pow10, 20);
                }
                assert(kept * pow10(q as nat) >= pow10(q as nat)) by (nonlinear_arith)
                    requires
                        kept >= 1,
                ;
                assert(kept * pow10(q as nat) >= kept) by (nonlinear_arith)
                    requires
                        pow10(q as nat) >= 1,
                ;
            }
            None
        } else {
            let p = pow10_exec(shift as usize);
            proof {
                assert(acc * p < 0x8000_0000_0000_0000 * 1_000_000_000_000_000_001) by (nonlinear_arith)
                    requires
                        acc < 0x8000_0000_0000_0000,
                        p <= 1_000_000_000_000_000_000,
                ;
            }
            let m = acc * p;
            if m > 0x7fff_ffff_ffff_ffff {
                None
            } else {
                Some(m)
            }
        }
    } else {
        if acc >= big {
            return None;
        }
        let m = acc + if up { 1 } else { 0 };
        if m > 0x7fff_ffff_ffff_ffff {
            None
        } else {
            Some(m)
        }
    }
}

/// The coordinate written as `s[a..b]` in decimal float notation, in
/// millionths of a unit rounded to the nearest one, if it is well formed
/// and its size fits in an `i64`.
pub fn coordinate(s: &[u8], a: usize, b: usize) -> (r: Option<i64>)
    requires
        a <= b <= s@.len(),
    ensures
        r == (if coordinate_syntax(s@, a as int, b as int)
            && coordinate_magnitude(s@, a as int, b as int) <= i64::MAX {
            Some(coordinate_value(s@, a as int, b as int) as i64)
        } else {
            None
        }),
{
    let c = if a < b && (s[a] == 0x2bu8 || s[a] == 0x2du8) { a + 1 } else { a };
    let e = find_exponent_mark(s, c, b);
    let ghost x_spec = exponent_digits(s@, a as int, b as int);
    let cap: u128 = (b - a) as u128 + 64;
    let mut exp_neg = false;
    let mut exp_mag: u128 = 0;
    if e < b {
        let x = if e + 1 < b && (s[e + 1] == 0x2bu8 || s[e + 1] == 0x2du8) { e + 2 } else { e + 1 };
        exp_neg = e + 1 < b && s[e + 1] == 0x2du8;
        let (ok, v) = capped_digits(s, x, b, cap);
        if !ok {
            return None;
        }
        exp_mag = v;
    }
    let ghost ev = if e == b { 0nat } else { digits_value(s@, x_spec, b as int) };
    assert(exp_mag == if ev < cap { ev } else { cap as nat });
    assert(e < b ==> exponent_value(s@, a as int, b as int) == if exp_neg { -ev } else { ev as int });
    let (ok, dots, after, n) = mantissa_counts(s, c, e);
    if !ok || dots > 1 || e - c <= dots {
        return None;
    }
    let shift: i128 = if exp_neg { -(exp_mag as i128) } else { exp_mag as i128 } - after as i128 + PLACES as i128;
    let ghost q_true = millionths_shift(s@, a as int, b as int);
    let ghost d = digit_seq(s@, c as int, e as int);
    proof {
        lemma_digit_seq_len(s@, c as int, e as int);
        // A capped exponent stands for one so large that the result is the
        // same as with the cap.
        if ev < cap {
            assert(q_true == shift);
        } else if exp_neg {
            assert(q_true <= shift && n as int + shift < 0);
        } else {
            assert(q_true >= shift && shift > 18);
        }
    }
    let mag = match scaled_exec(s, c, e, n, shift, Ghost(q_true)) {
        None => {
            return None;
        },
        Some(m) => m,
    };
    if a < b && s[a] == 0x2du8 {
        Some(-(mag as i64))
    } else {
        Some(mag as i64)
    }
}

} // verus!
