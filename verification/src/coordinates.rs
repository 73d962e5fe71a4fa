//! Grid positions and their neighbourhood.

use vstd::prelude::*;

verus! {

/// A cell position on the grid: column `x`, row `y`.
#[derive(Debug, Clone, Copy, PartialEq, Eq, PartialOrd, Ord, Hash, Structural)]
pub struct Coordinates {
    pub x: u16,
    pub y: u16,
}

impl Coordinates {
    /// Two positions are adjacent when they differ and lie at most one step
    /// apart on each axis.
    pub open spec fn adjacent(self, other: Coordinates) -> bool {
        &&& self != other
        &&& -1 <= other.x - self.x <= 1
        &&& -1 <= other.y - self.y <= 1
    }

    /// The position `dx` columns and `dy` rows away, as a sequence of one
    /// element, or the empty sequence where that position has no
    /// representation.
    pub open spec fn step(self, dx: int, dy: int) -> Seq<Coordinates> {
        if 0 <= self.x + dx <= u16::MAX && 0 <= self.y + dy <= u16::MAX {
            seq![Coordinates { x: (self.x + dx) as u16, y: (self.y + dy) as u16 }]
        } else {
            Seq::empty()
        }
    }

    /// The neighbours in their fixed order: the row below from left to right,
    /// the two beside, then the row above from left to right.
    pub open spec fn neighbors_spec(self) -> Seq<Coordinates> {
        self.step(-1, -1) + self.step(0, -1) + self.step(1, -1) + self.step(-1, 0) + self.step(
            1,
            0,
        ) + self.step(-1, 1) + self.step(0, 1) + self.step(1, 1)
    }

    /// The key under which a position is stored in a table of tiles.
    pub open spec fn key(self) -> (u16, u16) {
        (self.x, self.y)
    }

    /// The position at column `x` and row `y`.
    pub fn new(x: u16, y: u16) -> (c: Coordinates)
        ensures
            c.x == x,
            c.y == y,
    {
        Coordinates { x, y }
    }

    /// Appends to `out` the position `dx` columns and `dy` rows away, if it
    /// has a representation.
    fn push_step(&self, dx: i8, dy: i8, out: &mut Vec<Coordinates>)
        requires
            -1 <= dx <= 1,
            -1 <= dy <= 1,
        ensures
            final(out)@ == old(out)@ + self.step(dx as int, dy as int),
    {
        let x_fits = (dx >= 0 || self.x > 0) && (dx <= 0 || self.x < u16::MAX);
        let y_fits = (dy >= 0 || self.y > 0) && (dy <= 0 || self.y < u16::MAX);
        if x_fits && y_fits {
            let x: u16 = if dx < 0 {
                self.x - 1
            } else if dx > 0 {
                self.x + 1
            } else {
                self.x
            };
            let y: u16 = if dy < 0 {
                self.y - 1
            } else if dy > 0 {
                self.y + 1
            } else {
                self.y
            };
            out.push(Coordinates { x, y });
        }
    }

    /// The up to eight positions around this one. Positions beyond the map's
    /// edge are not filtered out: only those that no `u16` pair can name are
    /// absent.
    pub fn neighbors(&self) -> (around: Vec<Coordinates>)
        ensures
            around@ == self.neighbors_spec(),
    {
        let mut around: Vec<Coordinates> = Vec::new();
        self.push_step(-1, -1, &mut around);
        self.push_step(0, -1, &mut around);
        self.push_step(1, -1, &mut around);
        self.push_step(-1, 0, &mut around);
        self.push_step(1, 0, &mut around);
        self.push_step(-1, 1, &mut around);
        self.push_step(0, 1, &mut around);
        self.push_step(1, 1, &mut around);
        around
    }

    /// A step's sequence holds a position exactly when that position lies
    /// `dx` columns and `dy` rows away.
    pub proof fn lemma_step_contains(self, dx: int, dy: int, n: Coordinates)
        ensures
            self.step(dx, dy).contains(n) <==> (n.x == self.x + dx && n.y == self.y + dy),
            self.step(dx, dy).len() <= 1,
    {
        let s = self.step(dx, dy);
        if n.x == self.x + dx && n.y == self.y + dy {
            assert(s[0] == n);
        }
    }

    /// The neighbour sequence names every adjacent position exactly once and
    /// nothing else.
    pub proof fn lemma_neighbors(self)
        ensures
            self.neighbors_spec().no_duplicates(),
            self.neighbors_spec().len() <= 8,
            forall|n: Coordinates| #[trigger]
                self.neighbors_spec().contains(n) <==> self.adjacent(n),
    {
        let s = self.neighbors_spec();
        let prefix2 = self.step(-1, -1) + self.step(0, -1);
        let prefix3 = prefix2 + self.step(1, -1);
        let prefix4 = prefix3 + self.step(-1, 0);
        let prefix5 = prefix4 + self.step(1, 0);
        let prefix6 = prefix5 + self.step(-1, 1);
        let prefix7 = prefix6 + self.step(0, 1);
        assert forall|n: Coordinates| #[trigger] s.contains(n) <==> self.adjacent(n) by {
            self.lemma_step_contains(-1, -1, n);
            self.lemma_step_contains(0, -1, n);
            self.lemma_step_contains(1, -1, n);
            self.lemma_step_contains(-1, 0, n);
            self.lemma_step_contains(1, 0, n);
            self.lemma_step_contains(-1, 1, n);
            self.lemma_step_contains(0, 1, n);
            self.lemma_step_contains(1, 1, n);
            lemma_concat_contains(self.step(-1, -1), self.step(0, -1), n);
            lemma_concat_contains(prefix2, self.step(1, -1), n);
            lemma_concat_contains(prefix3, self.step(-1, 0), n);
            lemma_concat_contains(prefix4, self.step(1, 0), n);
            lemma_concat_contains(prefix5, self.step(-1, 1), n);
            lemma_concat_contains(prefix6, self.step(0, 1), n);
            lemma_concat_contains(prefix7, self.step(1, 1), n);
        }
    }
}

/// A concatenation holds a value exactly when one of its two parts does.
pub proof fn lemma_concat_contains<A>(a: Seq<A>, b: Seq<A>, n: A)
    ensures
        (a + b).contains(n) <==> a.contains(n) || b.contains(n),
{
    if a.contains(n) {
        let i = choose|i: int| 0 <= i < a.len() && a[i] == n;
        assert((a + b)[i] == n);
    }
    if b.contains(n) {
        let i = choose|i: int| 0 <= i < b.len() && b[i] == n;
        assert((a + b)[a.len() + i] == n);
    }
}

} // verus!
