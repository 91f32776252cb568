//! The settled grid: a sparse map from board coordinates to colors, with the
//! invariant that every entry's column lies on the 10-wide board.

use vstd::prelude::*;

use crate::game::tetronimos::{Color, Pixel};

verus! {

/// The settled cells of the board, keyed by (column, row). Columns of
/// entries always lie in 0..=9; rows may be negative (the spawn buffer).
pub struct Grid {
    cells: Vec<Pixel>,
}

impl View for Grid {
    type V = Map<(int, int), Color>;

    closed spec fn view(&self) -> Map<(int, int), Color> {
        Map::new(
            |p: (int, int)|
                exists|i: int|
                    0 <= i < self.cells@.len() && self.cells@[i].x == p.0 && self.cells@[i].y
                        == p.1,
            |p: (int, int)|
                {
                    let i = choose|i: int|
                        0 <= i < self.cells@.len() && self.cells@[i].x == p.0 && self.cells@[i].y
                            == p.1;
                    self.cells@[i].c
                },
        )
    }
}

impl Grid {
    /// How many cells are settled.
    pub closed spec fn spec_size(self) -> nat {
        self.cells@.len()
    }

    /// Entries have pairwise distinct coordinates and columns on the board.
    pub closed spec fn wf(self) -> bool {
        &&& forall|i: int, j: int|
            0 <= i < j < self.cells@.len() ==> !(#[trigger] self.cells@[i].x == #[trigger] self.cells@[j].x
                && self.cells@[i].y == self.cells@[j].y)
        &&& forall|i: int| 0 <= i < self.cells@.len() ==> 0 <= (#[trigger] self.cells@[i]).x <= 9
    }

    /// Every key of the view lies in columns 0..=9.
    pub proof fn lemma_wf_keys(self)
        requires
            self.wf(),
        ensures
            forall|p: (int, int)| self@.contains_key(p) ==> 0 <= p.0 <= 9,
    {
    }

    pub fn new() -> (g: Grid)
        ensures
            g@ =~= Map::<(int, int), Color>::empty(),
            g.wf(),
    {
        let g = Grid { cells: Vec::new() };
        proof {
            assert(g@ =~= Map::<(int, int), Color>::empty());
        }
        g
    }

    /// Look up the color settled at (x, y), if any.
    pub fn get(&self, x: i8, y: i8) -> (r: Option<Color>)
        requires
            self.wf(),
        ensures
            r matches Some(c) ==> self@.contains_key((x as int, y as int)) && self@[
                (x as int, y as int)
            ] == c,
            r is None ==> !self@.contains_key((x as int, y as int)),
    {
        let n = self.cells.len();
        let mut i: usize = 0;
        while i < n
            invariant
                self.wf(),
                n == self.cells@.len(),
                i <= n,
                forall|j: int|
                    0 <= j < i ==> !(#[trigger] self.cells@[j].x == x && self.cells@[j].y == y),
            decreases n - i,
        {
            let p = self.cells[i];
            if p.x == x && p.y == y {
                return Some(p.c);
            }
            i = i + 1;
        }
        None
    }

    /// Whether (x, y) is occupied.
    pub fn occupied(&self, x: i8, y: i8) -> (r: bool)
        requires
            self.wf(),
        ensures
            r == self@.contains_key((x as int, y as int)),
    {
        self.get(x, y).is_some()
    }

    /// Settle color `c` at (x, y), replacing any entry already there.
    pub fn insert(&mut self, x: i8, y: i8, c: Color)
        requires
            old(self).wf(),
            0 <= x <= 9,
        ensures
            final(self).wf(),
            final(self)@ =~= old(self)@.insert((x as int, y as int), c),
            final(self).spec_size() == old(self).spec_size() + (if old(self)@.contains_key(
                (x as int, y as int),
            ) {
                0int
            } else {
                1int
            }),
    {
        let n = self.cells.len();
        let mut i: usize = 0;
        while i < n
            invariant
                self.wf(),
                self == old(self),
                n == self.cells@.len(),
                i <= n,
                forall|j: int|
                    0 <= j < i ==> !(#[trigger] self.cells@[j].x == x && self.cells@[j].y == y),
            decreases n - i,
        {
            let p = self.cells[i];
            if p.x == x && p.y == y {
                self.cells[i] = Pixel { x, y, c };
                proof {
                    assert forall|p2: (int, int)|
                        #![all_triggers]
                        true implies (self@.contains_key(p2) == old(self)@.insert(
                        (x as int, y as int),
                        c,
                    ).contains_key(p2) && (self@.contains_key(p2) ==> self@[p2] == old(self)@.insert(
                        (x as int, y as int),
                        c,
                    )[p2])) by {
                        if p2 == (x as int, y as int) {
                            assert(self.cells@[i as int].x == p2.0 && self.cells@[i as int].y
                                == p2.1);
                        } else {
                            if old(self)@.contains_key(p2) {
                                let k = choose|k: int|
                                    0 <= k < old(self).cells@.len() && old(self).cells@[k].x == p2.0
                                        && old(self).cells@[k].y == p2.1;
                                assert(self.cells@[k].x == p2.0 && self.cells@[k].y == p2.1);
                            }
                            if self@.contains_key(p2) {
                                let k = choose|k: int|
                                    0 <= k < self.cells@.len() && self.cells@[k].x == p2.0
                                        && self.cells@[k].y == p2.1;
                                assert(old(self).cells@[k].x == p2.0 && old(self).cells@[k].y
                                    == p2.1);
                            }
                        }
                    }
                    assert(final(self)@ =~= old(self)@.insert((x as int, y as int), c));
                }
                return ;
            }
            i = i + 1;
        }
        self.cells.push(Pixel { x, y, c });
        proof {
            let m = self.cells@.len() - 1;
            assert(self.cells@[m].x == x && self.cells@[m].y == y);
            assert forall|p2: (int, int)|
                #![all_triggers]
                true implies (self@.contains_key(p2) == old(self)@.insert(
                (x as int, y as int),
                c,
            ).contains_key(p2) && (self@.contains_key(p2) ==> self@[p2] == old(self)@.insert(
                (x as int, y as int),
                c,
            )[p2])) by {
                if p2 == (x as int, y as int) {
                    let k = choose|k: int|
                        0 <= k < self.cells@.len() && self.cells@[k].x == p2.0 && self.cells@[k].y
                            == p2.1;
                    assert(self.cells@[k] == self.cells@[m]);
                } else {
                    if old(self)@.contains_key(p2) {
                        let k = choose|k: int|
                            0 <= k < old(self).cells@.len() && old(self).cells@[k].x == p2.0 && old(
                                self,
                            ).cells@[k].y == p2.1;
                        assert(self.cells@[k].x == p2.0 && self.cells@[k].y == p2.1);
                    }
                    if self@.contains_key(p2) {
                        let k = choose|k: int|
                            0 <= k < self.cells@.len() && self.cells@[k].x == p2.0
                                && self.cells@[k].y == p2.1;
                        assert(k != m);
                        assert(old(self).cells@[k].x == p2.0 && old(self).cells@[k].y == p2.1);
                    }
                }
            }
            assert(final(self)@ =~= old(self)@.insert((x as int, y as int), c));
        }
    }

    /// Clear (x, y), if it was settled.
    pub fn remove(&mut self, x: i8, y: i8)
        requires
            old(self).wf(),
        ensures
            final(self).wf(),
            final(self)@ =~= old(self)@.remove((x as int, y as int)),
            final(self).spec_size() == old(self).spec_size() - (if old(self)@.contains_key(
                (x as int, y as int),
            ) {
                1int
            } else {
                0int
            }),
    {
        let n = self.cells.len();
        let mut i: usize = 0;
        while i < n
            invariant
                self.wf(),
                self == old(self),
                n == self.cells@.len(),
                i <= n,
                forall|j: int|
                    0 <= j < i ==> !(#[trigger] self.cells@[j].x == x && self.cells@[j].y == y),
            decreases n - i,
        {
            let p = self.cells[i];
            if p.x == x && p.y == y {
                self.cells.swap_remove(i);
                proof {
                    let last = old(self).cells@.len() - 1;
                    assert forall|p2: (int, int)|
                        #![all_triggers]
                        true implies (self@.contains_key(p2) == old(self)@.remove(
                        (x as int, y as int),
                    ).contains_key(p2) && (self@.contains_key(p2) ==> self@[p2] == old(self)@.remove(
                        (x as int, y as int),
                    )[p2])) by {
                        if old(self)@.remove((x as int, y as int)).contains_key(p2) {
                            let k = choose|k: int|
                                0 <= k < old(self).cells@.len() && old(self).cells@[k].x == p2.0
                                    && old(self).cells@[k].y == p2.1;
                            if k == last {
                                assert(k != i);
                                assert(self.cells@[i as int].x == p2.0 && self.cells@[i as int].y
                                    == p2.1);
                            } else {
                                assert(self.cells@[k].x == p2.0 && self.cells@[k].y == p2.1);
                            }
                        }
                        if self@.contains_key(p2) {
                            let k = choose|k: int|
                                0 <= k < self.cells@.len() && self.cells@[k].x == p2.0
                                    && self.cells@[k].y == p2.1;
                            if k == i {
                                assert(old(self).cells@[last].x == p2.0 && old(
                                    self,
                                ).cells@[last].y == p2.1);
                            } else {
                                assert(old(self).cells@[k].x == p2.0 && old(self).cells@[k].y
                                    == p2.1);
                            }
                        }
                    }
                    assert(final(self)@ =~= old(self)@.remove((x as int, y as int)));
                }
                return ;
            }
            i = i + 1;
        }
        proof {
            assert(!old(self)@.contains_key((x as int, y as int)));
            assert(final(self)@ =~= old(self)@.remove((x as int, y as int)));
        }
    }
}

} // verus!
