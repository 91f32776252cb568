//! The falling pieces: their cells, kinds and colors, movement and rotation
//! with wall kicks, and the no-repeat randomizer bag.

use vstd::prelude::*;

pub mod tables;

use crate::game::grid::Grid;

verus! {

/// The visual material of one cell. The engine only carries the tag along;
/// the surrounding program maps it to an actual terminal color.
#[derive(Copy, Clone, Debug, PartialEq, Eq, Structural)]
pub enum Color {
    White,
    Cyan,
    Yellow,
    Magenta,
    Green,
    LightYellow,
    LightBlue,
    Red,
}

/// One board cell of a piece or of the settled grid: a column, a row and a
/// color. Columns run 0..=9 left to right; rows grow downward, with row 19
/// the floor and negative rows the hidden spawn buffer.
#[derive(Copy, Clone, Debug, PartialEq, Eq, Structural)]
pub struct Pixel {
    pub x: i8,
    pub y: i8,
    pub c: Color,
}

/// The seven piece kinds; a closed set.
#[derive(Copy, Clone, Debug, PartialEq, Eq, Structural)]
pub enum Type {
    I,
    L,
    T,
    S,
    O,
    J,
    Z,
}

/// The highest (most negative) row the engine represents. Rows this far
/// above the spawn buffer are unreachable in play; the bound keeps every
/// coordinate computation inside the cell type's range.
pub const MIN_ROW: i8 = -124;

/// All seven piece kinds.
pub open spec fn spec_all_types() -> Set<Type> {
    set![Type::I, Type::L, Type::T, Type::S, Type::O, Type::J, Type::Z]
}

/// The randomizer bag: every kind appears exactly once per cycle of seven
/// draws. The view is the set of kinds still undrawn in the current cycle.
pub struct TetronimoBag {
    types: Vec<Type>,
}

impl View for TetronimoBag {
    type V = Set<Type>;

    closed spec fn view(&self) -> Set<Type> {
        self.types@.to_set()
    }
}

/// Relies on rand's `Rng::gen_range` over `0..bound`: it returns a value
/// drawn from that range and panics only when the range is empty.
#[verifier::external_body]
fn random_below(bound: u8) -> (r: u8)
    requires
        bound >= 1,
    ensures
        r < bound,
{
    rand::Rng::gen_range(&mut rand::thread_rng(), 0..bound)
}

fn fill_bag() -> (v: Vec<Type>)
    ensures
        v@ == seq![Type::I, Type::L, Type::T, Type::S, Type::O, Type::J, Type::Z],
{
    let mut v: Vec<Type> = Vec::new();
    v.push(Type::I);
    v.push(Type::L);
    v.push(Type::T);
    v.push(Type::S);
    v.push(Type::O);
    v.push(Type::J);
    v.push(Type::Z);
    proof {
        assert(v@ =~= seq![Type::I, Type::L, Type::T, Type::S, Type::O, Type::J, Type::Z]);
    }
    v
}

/// How one draw changes the set of undrawn kinds: the result was undrawn,
/// and is removed; once the last kind is drawn the cycle starts over with
/// every kind undrawn again.
pub open spec fn spec_draw_rel(pre: Set<Type>, t: Type, post: Set<Type>) -> bool {
    &&& pre.contains(t)
    &&& if pre.len() > 1 {
        post == pre.remove(t)
    } else {
        post == spec_all_types()
    }
}

impl TetronimoBag {
    /// The undrawn kinds are pairwise distinct and never run out.
    pub closed spec fn wf(self) -> bool {
        &&& self.types@.no_duplicates()
        &&& 1 <= self.types@.len() <= 7
    }

    /// A fresh bag holds all seven kinds.
    pub fn new() -> (b: TetronimoBag)
        ensures
            b.wf(),
            b@ == spec_all_types(),
    {
        let b = TetronimoBag { types: fill_bag() };
        proof {
            assert(b@ =~= spec_all_types());
        }
        b
    }

    /// Draw a uniformly random kind among those undrawn in the current
    /// cycle; when the cycle is exhausted, start a fresh one.
    pub fn draw_next(&mut self) -> (t: Type)
        requires
            old(self).wf(),
        ensures
            final(self).wf(),
            spec_draw_rel(old(self)@, t, final(self)@),
    {
        let index = random_below(self.types.len() as u8) as usize;
        let result = self.types[index];
        proof {
            self.types@.unique_seq_to_set();
            assert(self@.contains(result));
        }
        let ghost pre = self.types@;
        self.types.remove(index);
        proof {
            assert(self.types@ =~= pre.subrange(0, index as int) + pre.subrange(
                index + 1,
                pre.len() as int,
            ));
            assert forall|k: Type| #![all_triggers] self@.contains(k) == pre.to_set().remove(
                pre[index as int],
            ).contains(k) by {
                if self@.contains(k) {
                    let j = choose|j: int| 0 <= j < self.types@.len() && self.types@[j] == k;
                    if j < index {
                        assert(pre[j] == k);
                        assert(k != pre[index as int]);
                    } else {
                        assert(pre[j + 1] == k);
                        assert(k != pre[index as int]);
                    }
                }
                if pre.to_set().remove(pre[index as int]).contains(k) {
                    let j = choose|j: int| 0 <= j < pre.len() && pre[j] == k;
                    if j < index {
                        assert(self.types@[j] == k);
                    } else {
                        assert(j > index);
                        assert(self.types@[j - 1] == k);
                    }
                }
            }
            assert(self@ =~= pre.to_set().remove(pre[index as int]));
            assert forall|a: int, b: int|
                0 <= a < b < self.types@.len() implies self.types@[a] != self.types@[b] by {
                if b < index {
                    assert(self.types@[a] == pre[a] && self.types@[b] == pre[b]);
                } else if a < index {
                    assert(self.types@[a] == pre[a] && self.types@[b] == pre[b + 1]);
                } else {
                    assert(self.types@[a] == pre[a + 1] && self.types@[b] == pre[b + 1]);
                }
            }
            if pre.len() > 1 {
                pre.unique_seq_to_set();
                assert(old(self)@.len() > 1);
            } else {
                pre.unique_seq_to_set();
                assert(old(self)@.len() == 1);
            }
        }
        if self.types.len() == 0 {
            self.types = fill_bag();
            proof {
                assert(self@ =~= spec_all_types());
            }
        }
        result
    }
}

/// Whether every cell of `cells`, shifted by `(dx, dy)`, lands on a legal
/// spot for a plain move: column on the board, not on the row just past the
/// floor, and not on a settled cell.
pub open spec fn spec_translate_ok(
    cells: Seq<Pixel>,
    dx: int,
    dy: int,
    grid: Map<(int, int), Color>,
) -> bool {
    forall|i: int|
        0 <= i < cells.len() ==> {
            &&& 0 <= (#[trigger] cells[i]).x + dx <= 9
            &&& cells[i].y + dy != 20
            &&& !grid.contains_key((cells[i].x + dx, cells[i].y + dy))
        }
}

/// Every cell shifted by `(dx, dy)`.
pub open spec fn spec_translated(cells: Seq<Pixel>, dx: int, dy: int) -> Seq<Pixel> {
    Seq::new(
        cells.len(),
        |i: int|
            Pixel { x: (cells[i].x + dx) as i8, y: (cells[i].y + dy) as i8, c: cells[i].c },
    )
}

/// Whether every cell of `cells`, moved by the kick offset `(dx, dy)`
/// (columns shift by `dx`, rows by `-dy`), lands on a legal spot: column on
/// the board, row between the representable top and the floor, and not on a
/// settled cell.
pub open spec fn spec_kick_ok(
    cells: Seq<Pixel>,
    dx: int,
    dy: int,
    grid: Map<(int, int), Color>,
) -> bool {
    forall|i: int|
        0 <= i < cells.len() ==> {
            &&& 0 <= (#[trigger] cells[i]).x + dx <= 9
            &&& MIN_ROW <= cells[i].y - dy <= 19
            &&& !grid.contains_key((cells[i].x + dx, cells[i].y - dy))
        }
}

/// Every cell moved by the kick offset `(dx, dy)`.
pub open spec fn spec_kicked(cells: Seq<Pixel>, dx: int, dy: int) -> Seq<Pixel> {
    Seq::new(
        cells.len(),
        |i: int|
            Pixel { x: (cells[i].x + dx) as i8, y: (cells[i].y - dy) as i8, c: cells[i].c },
    )
}

/// One cell turned a quarter turn about the pivot cell: its offset from the
/// pivot has its components swapped, with a sign depending on the direction.
pub open spec fn spec_rotated_pixel(p: Pixel, piv: Pixel, clockwise: bool) -> Pixel {
    if clockwise {
        Pixel { x: (piv.x + (piv.y - p.y)) as i8, y: (piv.y + (p.x - piv.x)) as i8, c: p.c }
    } else {
        Pixel { x: (piv.x - (piv.y - p.y)) as i8, y: (piv.y - (p.x - piv.x)) as i8, c: p.c }
    }
}

/// A piece's cells turned a quarter turn about its first cell, the pivot,
/// which stays in place.
pub open spec fn spec_rotated_cells(cells: Seq<Pixel>, clockwise: bool) -> Seq<Pixel> {
    Seq::new(
        cells.len(),
        |i: int|
            if i == 0 {
                cells[0]
            } else {
                spec_rotated_pixel(cells[i], cells[0], clockwise)
            },
    )
}

/// The rotation index after a quarter turn: clockwise increments modulo 4,
/// counter-clockwise decrements modulo 4.
pub open spec fn spec_next_rotation(r: i8, clockwise: bool) -> i8 {
    if clockwise {
        if r == 3 {
            0i8
        } else {
            (r + 1) as i8
        }
    } else {
        if r == 0 {
            3i8
        } else {
            (r - 1) as i8
        }
    }
}

/// What a rotation attempt does: the cells are turned about the pivot, then
/// the first kick candidate on which every cell lands legally is applied and
/// the rotation index advances; if no candidate fits, the piece is exactly
/// as before.
pub open spec fn spec_rotate_and_kick_rel(
    pre_cells: Seq<Pixel>,
    pre_rot: i8,
    t: Type,
    clockwise: bool,
    grid: Map<(int, int), Color>,
    post_cells: Seq<Pixel>,
    post_rot: i8,
) -> bool {
    let rot_cells = spec_rotated_cells(pre_cells, clockwise);
    let new_rot = spec_next_rotation(pre_rot, clockwise);
    let offs = tables::spec_kick_offsets(pre_rot as int, new_rot as int, t);
    if exists|j: int|
        0 <= j < offs.len() && #[trigger] spec_kick_ok(rot_cells, offs[j].0, offs[j].1, grid) {
        exists|j: int|
            {
                &&& 0 <= j < offs.len()
                &&& #[trigger] spec_kick_ok(rot_cells, offs[j].0, offs[j].1, grid)
                &&& (forall|k: int|
                    0 <= k < j ==> !spec_kick_ok(rot_cells, offs[k].0, offs[k].1, grid))
                &&& post_cells == spec_kicked(rot_cells, offs[j].0, offs[j].1)
                &&& post_rot == new_rot
            }
    } else {
        post_cells == pre_cells && post_rot == pre_rot
    }
}

fn kick_fits(pixels: &Vec<Pixel>, o: (i8, i8), board: &Grid) -> (r: bool)
    requires
        board.wf(),
        -4 <= o.0 <= 4,
        -4 <= o.1 <= 4,
    ensures
        r == spec_kick_ok(pixels@, o.0 as int, o.1 as int, board@),
{
    let n = pixels.len();
    let mut i: usize = 0;
    while i < n
        invariant
            board.wf(),
            -4 <= o.0 <= 4,
            -4 <= o.1 <= 4,
            i <= n,
            n == pixels@.len(),
            forall|j: int|
                0 <= j < i ==> {
                    &&& 0 <= (#[trigger] pixels@[j]).x + o.0 <= 9
                    &&& MIN_ROW <= pixels@[j].y - o.1 <= 19
                    &&& !board@.contains_key((pixels@[j].x + o.0, pixels@[j].y - o.1))
                },
        decreases n - i,
    {
        let p = pixels[i];
        let nx: i16 = p.x as i16 + o.0 as i16;
        let ny: i16 = p.y as i16 - o.1 as i16;
        if nx < 0 || nx > 9 || ny > 19 || ny < MIN_ROW as i16 || board.occupied(
            nx as i8,
            ny as i8,
        ) {
            return false;
        }
        i = i + 1;
    }
    true
}

/// A quarter turn and its inverse cancel exactly, cell by cell.
proof fn lemma_rotate_roundtrip(cells: Seq<Pixel>, clockwise: bool)
    requires
        cells.len() >= 1,
        0 <= cells[0].x <= 9,
        MIN_ROW <= cells[0].y <= 19,
        forall|i: int|
            1 <= i < cells.len() ==> -2 <= (#[trigger] cells[i]).x - cells[0].x <= 2 && -2 <= cells[i].y
                - cells[0].y <= 2,
    ensures
        spec_rotated_cells(spec_rotated_cells(cells, clockwise), !clockwise) =~= cells,
{
    let rot = spec_rotated_cells(cells, clockwise);
    assert(rot[0] == cells[0]);
    assert forall|i: int|
        0 <= i < cells.len() implies spec_rotated_cells(rot, !clockwise)[i] == cells[i] by {
        if i > 0 {
            assert(rot[i] == spec_rotated_pixel(cells[i], cells[0], clockwise));
        }
    }
}

/// One active piece: exactly four cells in a fixed order (the first is the
/// rotation pivot), its kind, its rotation index and its soft-drop counter.
pub struct Tetronimo {
    pub pixels: Vec<Pixel>,
    pub dropped: u8,
    pub t: Type,
    pub rotation: i8,
}

impl Tetronimo {
    pub open spec fn spec_dropped(self) -> u8 {
        self.dropped
    }

    pub open spec fn spec_type(self) -> Type {
        self.t
    }

    pub open spec fn spec_rotation(self) -> i8 {
        self.rotation
    }

    /// Every cell stays within two columns and two rows of the pivot; this
    /// holds of every spawn layout and is preserved by moves and turns.
    pub open spec fn rel_bounded(self) -> bool {
        forall|i: int|
            1 <= i < self.pixels@.len() ==> -2 <= (#[trigger] self.pixels@[i]).x
                - self.pixels@[0].x <= 2 && -2 <= self.pixels@[i].y - self.pixels@[0].y <= 2
    }

    /// Structural well-formedness: four cells, a rotation index in 0..=3,
    /// and cells grouped around the pivot.
    pub open spec fn wf(self) -> bool {
        &&& self.pixels@.len() == 4
        &&& 0 <= self.spec_rotation() < 4
        &&& self.rel_bounded()
    }

    /// Every cell is on a board column and between the representable top
    /// and the floor row.
    pub open spec fn in_play(self) -> bool {
        forall|i: int|
            0 <= i < self.pixels@.len() ==> 0 <= (#[trigger] self.pixels@[i]).x <= 9 && MIN_ROW
                <= self.pixels@[i].y <= 19
    }

    /// A fresh piece of kind `t` in its spawn cells.
    pub fn new(t: Type) -> (p: Tetronimo)
        ensures
            p.pixels@ == tables::spec_initial_cells(t),
            p.spec_rotation() == 0,
            p.spec_dropped() == 0,
            p.spec_type() == t,
            p.wf(),
            p.in_play(),
    {
        let p = Tetronimo { pixels: tables::fill_new_pixels(t), dropped: 0, t, rotation: 0 };
        proof {
            assert(p.wf() && p.in_play()) by {
                match t {
                    Type::I => {},
                    Type::L => {},
                    Type::T => {},
                    Type::S => {},
                    Type::O => {},
                    Type::J => {},
                    Type::Z => {},
                }
            }
        }
        p
    }

    /// Record one manual downward move, for scoring; the counter sticks at
    /// its maximum rather than wrapping.
    pub fn inc_dropped(&mut self)
        ensures
            final(self).spec_dropped() == if old(self).spec_dropped() < 255 {
                old(self).spec_dropped() + 1
            } else {
                255int
            },
            final(self).pixels@ == old(self).pixels@,
            final(self).spec_rotation() == old(self).spec_rotation(),
            final(self).spec_type() == old(self).spec_type(),
    {
        if self.dropped < 255 {
            self.dropped = self.dropped + 1;
        }
    }

    /// How many manual downward moves this piece has made.
    pub fn dropped(&self) -> (d: u8)
        ensures
            d == self.spec_dropped(),
    {
        self.dropped
    }

    /// The color of this piece at (x, y): the first cell there, if any.
    pub fn check_pixel(&self, x: i8, y: i8) -> (r: Option<Color>)
        ensures
            r == spec_check_pixel(self.pixels@, x as int, y as int),
    {
        let n = self.pixels.len();
        let mut i: usize = 0;
        proof {
            assert(self.pixels@.skip(0) =~= self.pixels@);
        }
        while i < n
            invariant
                i <= n,
                n == self.pixels@.len(),
                spec_check_pixel(self.pixels@, x as int, y as int) == spec_check_pixel(
                    self.pixels@.skip(i as int),
                    x as int,
                    y as int,
                ),
            decreases n - i,
        {
            let p = self.pixels[i];
            if p.x == x && p.y == y {
                proof {
                    assert(self.pixels@.skip(i as int)[0] == p);
                }
                return Some(p.c);
            }
            proof {
                assert(self.pixels@.skip(i as int).drop_first() =~= self.pixels@.skip(i + 1));
            }
            i = i + 1;
        }
        proof {
            assert(self.pixels@.skip(n as int).len() == 0);
        }
        None
    }

    /// Try to shift the piece by `offset`: if every cell's destination is a
    /// legal spot the move commits and this returns true; otherwise the
    /// cells stay exactly as they were and this returns false. This single
    /// primitive implements gravity, soft drop and horizontal movement.
    pub fn move_offset(&mut self, offset: (i8, i8), board: &Grid) -> (moved: bool)
        requires
            board.wf(),
            forall|i: int|
                0 <= i < old(self).pixels@.len() ==> -128 <= (#[trigger] old(
                    self,
                ).pixels@[i]).x + offset.0 <= 127 && -128 <= old(self).pixels@[i].y + offset.1
                    <= 127,
        ensures
            moved == spec_translate_ok(
                old(self).pixels@,
                offset.0 as int,
                offset.1 as int,
                board@,
            ),
            moved ==> final(self).pixels@ == spec_translated(
                old(self).pixels@,
                offset.0 as int,
                offset.1 as int,
            ),
            !moved ==> *final(self) == *old(self),
            final(self).spec_rotation() == old(self).spec_rotation(),
            final(self).spec_dropped() == old(self).spec_dropped(),
            final(self).spec_type() == old(self).spec_type(),
            final(self).pixels@.len() == old(self).pixels@.len(),
            old(self).rel_bounded() ==> final(self).rel_bounded(),
    {
        let n = self.pixels.len();
        let mut i: usize = 0;
        while i < n
            invariant
                self == old(self),
                board.wf(),
                i <= n,
                n == self.pixels@.len(),
                forall|j: int|
                    0 <= j < n ==> -128 <= (#[trigger] self.pixels@[j]).x + offset.0 <= 127 && -128
                        <= self.pixels@[j].y + offset.1 <= 127,
                forall|j: int|
                    0 <= j < i ==> {
                        &&& 0 <= (#[trigger] self.pixels@[j]).x + offset.0 <= 9
                        &&& self.pixels@[j].y + offset.1 != 20
                        &&& !board@.contains_key(
                            (self.pixels@[j].x + offset.0, self.pixels@[j].y + offset.1),
                        )
                    },
            decreases n - i,
        {
            let p = self.pixels[i];
            let new_x = p.x + offset.0;
            let new_y = p.y + offset.1;
            if new_y == 20 || new_x < 0 || new_x > 9 || board.occupied(new_x, new_y) {
                return false;
            }
            i = i + 1;
        }
        let mut i: usize = 0;
        while i < n
            invariant
                i <= n,
                n == self.pixels@.len(),
                n == old(self).pixels@.len(),
                self.spec_rotation() == old(self).spec_rotation(),
                self.spec_dropped() == old(self).spec_dropped(),
                self.spec_type() == old(self).spec_type(),
                forall|j: int|
                    i <= j < n ==> #[trigger] self.pixels@[j] == old(self).pixels@[j],
                forall|j: int|
                    0 <= j < n ==> -128 <= (#[trigger] old(self).pixels@[j]).x + offset.0 <= 127
                        && -128 <= old(self).pixels@[j].y + offset.1 <= 127,
                forall|j: int|
                    0 <= j < n ==> 0 <= (#[trigger] old(self).pixels@[j]).x + offset.0 <= 9,
                forall|j: int|
                    0 <= j < i ==> #[trigger] self.pixels@[j] == spec_translated(
                        old(self).pixels@,
                        offset.0 as int,
                        offset.1 as int,
                    )[j],
            decreases n - i,
        {
            let p = self.pixels[i];
            self.pixels[i] = Pixel { x: p.x + offset.0, y: p.y + offset.1, c: p.c };
            i = i + 1;
        }
        proof {
            assert(self.pixels@ =~= spec_translated(
                old(self).pixels@,
                offset.0 as int,
                offset.1 as int,
            ));
        }
        true
    }

    /// Turn the cells a quarter turn about the pivot and advance the
    /// rotation index; no legality checks are made here.
    fn rotate(&mut self, clockwise: bool)
        requires
            old(self).pixels@.len() == 4,
            0 <= old(self).spec_rotation() < 4,
            old(self).rel_bounded(),
            0 <= old(self).pixels@[0].x <= 9,
            MIN_ROW <= old(self).pixels@[0].y <= 19,
        ensures
            final(self).pixels@ == spec_rotated_cells(old(self).pixels@, clockwise),
            final(self).spec_rotation() == spec_next_rotation(
                old(self).spec_rotation(),
                clockwise,
            ),
            final(self).spec_dropped() == old(self).spec_dropped(),
            final(self).spec_type() == old(self).spec_type(),
            final(self).rel_bounded(),
            final(self).pixels@.len() == 4,
            final(self).pixels@[0] == old(self).pixels@[0],
            0 <= final(self).spec_rotation() < 4,
    {
        let mut i: usize = 1;
        while i < 4
            invariant
                1 <= i <= 4,
                self.pixels@.len() == 4,
                old(self).pixels@.len() == 4,
                self.spec_dropped() == old(self).spec_dropped(),
                self.spec_type() == old(self).spec_type(),
                self.spec_rotation() == old(self).spec_rotation(),
                old(self).rel_bounded(),
                0 <= old(self).pixels@[0].x <= 9,
                MIN_ROW <= old(self).pixels@[0].y <= 19,
                self.pixels@[0] == old(self).pixels@[0],
                forall|j: int|
                    i <= j < 4 ==> #[trigger] self.pixels@[j] == old(self).pixels@[j],
                forall|j: int|
                    1 <= j < i ==> #[trigger] self.pixels@[j] == spec_rotated_pixel(
                        old(self).pixels@[j],
                        old(self).pixels@[0],
                        clockwise,
                    ),
            decreases 4 - i,
        {
            let piv = self.pixels[0];
            let p = self.pixels[i];
            let relative_x = p.x - piv.x;
            let relative_y = piv.y - p.y;
            if clockwise {
                self.pixels[i] = Pixel { x: piv.x + relative_y, y: piv.y + relative_x, c: p.c };
            } else {
                self.pixels[i] = Pixel { x: piv.x - relative_y, y: piv.y - relative_x, c: p.c };
            }
            i = i + 1;
        }
        if clockwise {
            if self.rotation == 3 {
                self.rotation = 0;
            } else {
                self.rotation = self.rotation + 1;
            }
        } else {
            if self.rotation == 0 {
                self.rotation = 3;
            } else {
                self.rotation = self.rotation - 1;
            }
        }
        proof {
            assert(self.pixels@ =~= spec_rotated_cells(old(self).pixels@, clockwise));
        }
    }

    /// Turn the piece a quarter turn about its pivot and settle it on the
    /// first kick candidate where every cell lands legally; if none fits,
    /// turn back, leaving the piece exactly as it was.
    pub fn rotate_and_kick(&mut self, clockwise: bool, board: &Grid)
        requires
            board.wf(),
            old(self).wf(),
            old(self).in_play(),
        ensures
            final(self).wf(),
            final(self).in_play(),
            final(self).spec_dropped() == old(self).spec_dropped(),
            final(self).spec_type() == old(self).spec_type(),
            spec_rotate_and_kick_rel(
                old(self).pixels@,
                old(self).spec_rotation(),
                old(self).spec_type(),
                clockwise,
                board@,
                final(self).pixels@,
                final(self).spec_rotation(),
            ),
    {
        let previous_rotation = self.rotation;
        self.rotate(clockwise);
        let offsets = tables::get_kick_offsets(previous_rotation, self.rotation, self.t);
        let ghost rot_cells = self.pixels@;
        let ghost offs = tables::spec_kick_offsets(
            previous_rotation as int,
            self.spec_rotation() as int,
            self.spec_type(),
        );
        let n = offsets.len();
        let mut oi: usize = 0;
        while oi < n
            invariant
                board.wf(),
                old(self).wf(),
                old(self).in_play(),
                oi <= n,
                n == offsets@.len(),
                n == offs.len(),
                previous_rotation == old(self).spec_rotation(),
                self.spec_rotation() == spec_next_rotation(previous_rotation, clockwise),
                0 <= self.spec_rotation() < 4,
                self.spec_dropped() == old(self).spec_dropped(),
                self.spec_type() == old(self).spec_type(),
                self.pixels@ == rot_cells,
                self.pixels@.len() == 4,
                self.rel_bounded(),
                self.pixels@[0] == old(self).pixels@[0],
                rot_cells == spec_rotated_cells(old(self).pixels@, clockwise),
                offs == tables::spec_kick_offsets(
                    previous_rotation as int,
                    self.spec_rotation() as int,
                    self.spec_type(),
                ),
                forall|j: int|
                    0 <= j < n ==> #[trigger] offsets@[j].0 as int == offs[j].0 && offsets@[j].1
                        as int == offs[j].1,
                forall|j: int| 0 <= j < n ==> -4 <= #[trigger] offsets@[j].0 <= 4 && -4
                    <= offsets@[j].1 <= 4,
                forall|k: int|
                    0 <= k < oi ==> !spec_kick_ok(
                        rot_cells,
                        #[trigger] offs[k].0,
                        offs[k].1,
                        board@,
                    ),
            decreases n - oi,
        {
            let o = offsets[oi];
            if kick_fits(&self.pixels, o, board) {
                let mut i: usize = 0;
                while i < 4
                    invariant
                        i <= 4,
                        self.pixels@.len() == 4,
                        -4 <= o.0 <= 4,
                        -4 <= o.1 <= 4,
                        self.spec_rotation() == spec_next_rotation(previous_rotation, clockwise),
                        self.spec_dropped() == old(self).spec_dropped(),
                        self.spec_type() == old(self).spec_type(),
                        spec_kick_ok(rot_cells, o.0 as int, o.1 as int, board@),
                        rot_cells.len() == 4,
                        forall|j: int|
                            i <= j < 4 ==> #[trigger] self.pixels@[j] == rot_cells[j],
                        forall|j: int|
                            0 <= j < i ==> #[trigger] self.pixels@[j] == spec_kicked(
                                rot_cells,
                                o.0 as int,
                                o.1 as int,
                            )[j],
                    decreases 4 - i,
                {
                    let p = self.pixels[i];
                    proof {
                        assert(0 <= rot_cells[i as int].x + o.0 <= 9);
                        assert(MIN_ROW <= rot_cells[i as int].y - o.1 <= 19);
                    }
                    let nx: i16 = p.x as i16 + o.0 as i16;
                    let ny: i16 = p.y as i16 - o.1 as i16;
                    self.pixels[i] = Pixel { x: nx as i8, y: ny as i8, c: p.c };
                    i = i + 1;
                }
                proof {
                    assert(self.pixels@ =~= spec_kicked(rot_cells, o.0 as int, o.1 as int));
                    assert(spec_kick_ok(rot_cells, offs[oi as int].0, offs[oi as int].1, board@));
                    assert(spec_rotate_and_kick_rel(
                        old(self).pixels@,
                        old(self).spec_rotation(),
                        old(self).spec_type(),
                        clockwise,
                        board@,
                        self.pixels@,
                        self.spec_rotation(),
                    ));
                    assert forall|j: int|
                        1 <= j < 4 implies -2 <= (#[trigger] self.pixels@[j]).x
                        - self.pixels@[0].x <= 2 && -2 <= self.pixels@[j].y
                        - self.pixels@[0].y <= 2 by {
                        assert(rot_cells[j].x - rot_cells[0].x == self.pixels@[j].x
                            - self.pixels@[0].x);
                    }
                }
                return ;
            }
            oi = oi + 1;
        }
        proof {
            lemma_rotate_roundtrip(old(self).pixels@, clockwise);
        }
        self.rotate(!clockwise);
        proof {
            assert(self.pixels@ =~= old(self).pixels@);
            assert(self.spec_rotation() == old(self).spec_rotation());
            assert(!exists|j: int|
                0 <= j < offs.len() && #[trigger] spec_kick_ok(
                    rot_cells,
                    offs[j].0,
                    offs[j].1,
                    board@,
                ));
        }
    }
}

/// The color of the first cell of `cells` lying at (x, y), if any.
pub open spec fn spec_check_pixel(cells: Seq<Pixel>, x: int, y: int) -> Option<Color>
    decreases cells.len(),
{
    if cells.len() == 0 {
        None
    } else if cells[0].x == x && cells[0].y == y {
        Some(cells[0].c)
    } else {
        spec_check_pixel(cells.drop_first(), x, y)
    }
}

/// Whether a piece's cells, as they stand, are a legal placement: on board
/// columns, between the representable top and the floor, and off every
/// settled cell.
pub open spec fn spec_placement_ok(cells: Seq<Pixel>, grid: Map<(int, int), Color>) -> bool {
    forall|i: int|
        0 <= i < cells.len() ==> {
            &&& 0 <= (#[trigger] cells[i]).x <= 9
            &&& MIN_ROW <= cells[i].y <= 19
            &&& !grid.contains_key((cells[i].x as int, cells[i].y as int))
        }
}

/// Law: a clockwise rotation followed by a counter-clockwise one (or the
/// reverse), when the piece stands on a legal placement and the first turn
/// settles on its most-preferred kick candidate, restores the original cell
/// sequence and rotation index. (When the first turn needs a lesser
/// candidate, the return turn may settle on a different kick and end
/// elsewhere.)
pub proof fn lemma_rotation_round_trip(
    pre_cells: Seq<Pixel>,
    pre_rot: i8,
    t: Type,
    clockwise: bool,
    grid: Map<(int, int), Color>,
    mid_cells: Seq<Pixel>,
    mid_rot: i8,
    post_cells: Seq<Pixel>,
    post_rot: i8,
)
    requires
        pre_cells.len() == 4,
        0 <= pre_rot < 4,
        forall|i: int|
            1 <= i < 4 ==> -2 <= (#[trigger] pre_cells[i]).x - pre_cells[0].x <= 2 && -2
                <= pre_cells[i].y - pre_cells[0].y <= 2,
        spec_placement_ok(pre_cells, grid),
        spec_kick_ok(
            spec_rotated_cells(pre_cells, clockwise),
            tables::spec_kick_offsets(
                pre_rot as int,
                spec_next_rotation(pre_rot, clockwise) as int,
                t,
            )[0].0,
            tables::spec_kick_offsets(
                pre_rot as int,
                spec_next_rotation(pre_rot, clockwise) as int,
                t,
            )[0].1,
            grid,
        ),
        spec_rotate_and_kick_rel(pre_cells, pre_rot, t, clockwise, grid, mid_cells, mid_rot),
        spec_rotate_and_kick_rel(mid_cells, mid_rot, t, !clockwise, grid, post_cells, post_rot),
    ensures
        post_cells =~= pre_cells,
        post_rot == pre_rot,
{
    let new_rot = spec_next_rotation(pre_rot, clockwise);
    let rot_cells = spec_rotated_cells(pre_cells, clockwise);
    let offs = tables::spec_kick_offsets(pre_rot as int, new_rot as int, t);
    let d = offs[0];
    // The first turn settles on candidate 0.
    assert(spec_kick_ok(rot_cells, d.0, d.1, grid));
    let j1 = choose|j: int|
        {
            &&& 0 <= j < offs.len()
            &&& #[trigger] spec_kick_ok(rot_cells, offs[j].0, offs[j].1, grid)
            &&& (forall|k: int| 0 <= k < j ==> !spec_kick_ok(rot_cells, offs[k].0, offs[k].1, grid))
            &&& mid_cells == spec_kicked(rot_cells, offs[j].0, offs[j].1)
            &&& mid_rot == new_rot
        };
    assert(j1 == 0);
    assert(mid_cells == spec_kicked(rot_cells, d.0, d.1));
    assert(mid_rot == new_rot);
    // The return transition's candidate list is the first one negated,
    // entry by entry, because both difference the same base-offset rows.
    let offs2 = tables::spec_kick_offsets(new_rot as int, pre_rot as int, t);
    let e = offs2[0];
    assert(spec_next_rotation(new_rot, !clockwise) == pre_rot);
    assert(e.0 == -d.0 && e.1 == -d.1);
    // Turning the kicked cells back gives the original cells shifted by the
    // kick, so the return turn's candidate 0 lands exactly on the original
    // placement, which is legal.
    let rot2 = spec_rotated_cells(mid_cells, !clockwise);
    assert forall|i: int| 0 <= i < 4 implies (#[trigger] rot2[i]).x == pre_cells[i].x + d.0
        && rot2[i].y == pre_cells[i].y - d.1 && rot2[i].c == pre_cells[i].c by {
        assert(mid_cells[0].x == rot_cells[0].x + d.0 && mid_cells[0].y == rot_cells[0].y - d.1);
        assert(mid_cells[i] == spec_kicked(rot_cells, d.0, d.1)[i]);
        if i > 0 {
            assert(rot_cells[i] == spec_rotated_pixel(pre_cells[i], pre_cells[0], clockwise));
            assert(rot2[i] == spec_rotated_pixel(mid_cells[i], mid_cells[0], !clockwise));
        }
    }
    assert(spec_kick_ok(rot2, e.0, e.1, grid));
    let j2 = choose|j: int|
        {
            &&& 0 <= j < offs2.len()
            &&& #[trigger] spec_kick_ok(rot2, offs2[j].0, offs2[j].1, grid)
            &&& (forall|k: int| 0 <= k < j ==> !spec_kick_ok(rot2, offs2[k].0, offs2[k].1, grid))
            &&& post_cells == spec_kicked(rot2, offs2[j].0, offs2[j].1)
            &&& post_rot == spec_next_rotation(mid_rot, !clockwise)
        };
    assert(j2 == 0);
    assert(post_cells == spec_kicked(rot2, e.0, e.1));
    assert forall|i: int| 0 <= i < 4 implies #[trigger] post_cells[i] == pre_cells[i] by {
        assert(post_cells[i] == spec_kicked(rot2, e.0, e.1)[i]);
    }
}

/// Law: seven consecutive draws from a fresh bag yield each of the seven
/// kinds exactly once, in whatever order; `states` are the bag views before
/// each draw and after the last.
pub proof fn lemma_bag_cycle(draws: Seq<Type>, states: Seq<Set<Type>>)
    requires
        draws.len() == 7,
        states.len() == 8,
        states[0] == spec_all_types(),
        forall|i: int| 0 <= i < 7 ==> spec_draw_rel(states[i], #[trigger] draws[i], states[i + 1]),
    ensures
        forall|i: int, j: int| 0 <= i < j < 7 ==> draws[i] != draws[j],
        forall|k: Type| spec_all_types().contains(k) ==> exists|i: int| 0 <= i < 7 && draws[i] == k,
{
    lemma_all_types_len();
    assert forall|m: int| 0 <= m <= 6 implies states[m].finite() && states[m].len() == 7 - m && (
    #[trigger] states[m]) =~= spec_all_types().difference(draws.take(m).to_set()) by {
        lemma_bag_cycle_inv(draws, states, m);
    }
    assert forall|i: int, j: int| 0 <= i < j < 7 implies draws[i] != draws[j] by {
        assert(states[j] =~= spec_all_types().difference(draws.take(j).to_set()));
        assert(states[j].contains(draws[j]));
        assert(draws.take(j)[i] == draws[i]);
        assert(draws.take(j).to_set().contains(draws[i]));
    }
    assert forall|k: Type| spec_all_types().contains(k) implies exists|i: int|
        0 <= i < 7 && draws[i] == k by {
        if !draws.to_set().contains(k) {
            assert forall|x: Type| draws.to_set().contains(x) implies spec_all_types().remove(
                k,
            ).contains(x) by {
                let i = choose|i: int| 0 <= i < 7 && draws[i] == x;
                assert(states[i].contains(x));
                assert(states[i] =~= spec_all_types().difference(draws.take(i).to_set()));
            }
            assert(draws.to_set().subset_of(spec_all_types().remove(k)));
            vstd::set_lib::lemma_len_subset(draws.to_set(), spec_all_types().remove(k));
            assert(draws.to_set().len() <= 6);
            assert(draws.no_duplicates());
            draws.unique_seq_to_set();
            assert(false);
        }
        let i = choose|i: int| 0 <= i < draws.len() && draws[i] == k;
        assert(0 <= i < 7 && draws[i] == k);
    }
}

proof fn lemma_all_types_len()
    ensures
        spec_all_types().finite(),
        spec_all_types().len() == 7,
{
    let s1 = Set::<Type>::empty().insert(Type::I);
    let s2 = s1.insert(Type::L);
    let s3 = s2.insert(Type::T);
    let s4 = s3.insert(Type::S);
    let s5 = s4.insert(Type::O);
    let s6 = s5.insert(Type::J);
    let s7 = s6.insert(Type::Z);
    assert(s1.len() == 1);
    assert(!s1.contains(Type::L) && s2.len() == 2);
    assert(!s2.contains(Type::T) && s3.len() == 3);
    assert(!s3.contains(Type::S) && s4.len() == 4);
    assert(!s4.contains(Type::O) && s5.len() == 5);
    assert(!s5.contains(Type::J) && s6.len() == 6);
    assert(!s6.contains(Type::Z) && s7.len() == 7);
    assert(spec_all_types() =~= s7);
}

proof fn lemma_bag_cycle_inv(draws: Seq<Type>, states: Seq<Set<Type>>, m: int)
    requires
        draws.len() == 7,
        states.len() == 8,
        states[0] == spec_all_types(),
        forall|i: int| 0 <= i < 7 ==> spec_draw_rel(states[i], #[trigger] draws[i], states[i + 1]),
        0 <= m <= 6,
    ensures
        states[m].finite(),
        states[m].len() == 7 - m,
        states[m] =~= spec_all_types().difference(draws.take(m).to_set()),
    decreases m,
{
    lemma_all_types_len();
    if m == 0 {
        assert(draws.take(0).to_set() =~= Set::<Type>::empty());
        assert(states[0] =~= spec_all_types().difference(draws.take(0).to_set()));
    } else {
        lemma_bag_cycle_inv(draws, states, m - 1);
        assert(spec_draw_rel(states[m - 1], draws[m - 1], states[m]));
        assert(states[m - 1].len() == 7 - (m - 1) > 1);
        assert(states[m] == states[m - 1].remove(draws[m - 1]));
        assert(states[m - 1].contains(draws[m - 1]));
        assert(states[m].len() == 7 - m);
        assert forall|k: Type| #![all_triggers] draws.take(m).to_set().contains(k) == (draws.take(
            m - 1,
        ).to_set().contains(k) || k == draws[m - 1]) by {
            if draws.take(m).to_set().contains(k) {
                let i = choose|i: int| 0 <= i < m && #[trigger] draws.take(m)[i] == k;
                if i < m - 1 {
                    assert(draws.take(m - 1)[i] == k);
                }
            }
            if draws.take(m - 1).to_set().contains(k) {
                let i = choose|i: int| 0 <= i < m - 1 && #[trigger] draws.take(m - 1)[i] == k;
                assert(draws.take(m)[i] == k);
            }
            if k == draws[m - 1] {
                assert(draws.take(m)[m - 1] == k);
            }
        }
        assert(states[m] =~= spec_all_types().difference(draws.take(m).to_set()));
    }
}

} // verus!
