use vstd::prelude::*;

verus! {

/// The colour a model is drawn in; the variants form a ring of four.
#[derive(Clone, Copy, Debug, PartialEq, Eq, Structural)]
pub enum Color {
    RED,
    GREEN,
    BLUE,
    YELLOW,
}

/// Position of a colour on the ring.
pub open spec fn ring_index(c: Color) -> nat {
    match c {
        Color::RED => 0,
        Color::GREEN => 1,
        Color::BLUE => 2,
        Color::YELLOW => 3,
    }
}

/// The colour that follows `c` on the ring.
pub open spec fn successor(c: Color) -> Color {
    match c {
        Color::RED => Color::GREEN,
        Color::GREEN => Color::BLUE,
        Color::BLUE => Color::YELLOW,
        Color::YELLOW => Color::RED,
    }
}

/// `successor` applied `k` times.
pub open spec fn successor_n(c: Color, k: nat) -> Color
    decreases k,
{
    if k == 0 {
        c
    } else {
        successor(successor_n(c, (k - 1) as nat))
    }
}

impl Color {
    /// The next colour on the ring RED, GREEN, BLUE, YELLOW, RED.
    pub fn next_color(self) -> (r: Color)
        ensures
            r == successor(self),
            ring_index(r) == (ring_index(self) + 1) % 4,
    {
        match self {
            Color::RED => Color::GREEN,
            Color::GREEN => Color::BLUE,
            Color::BLUE => Color::YELLOW,
            Color::YELLOW => Color::RED,
        }
    }
}

/// Stepping four times around the ring returns to the start, and no
/// fewer steps do: the ring is a closed cycle of length four.
pub proof fn lemma_color_ring_closed(c: Color)
    ensures
        successor_n(c, 4) == c,
        successor_n(c, 1) != c,
        successor_n(c, 2) != c,
        successor_n(c, 3) != c,
{
    reveal_with_fuel(successor_n, 5);
}

} // verus!
