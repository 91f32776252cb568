//! The board state machine: tick, movement, rotation, locking, line
//! clearing and scoring.

use vstd::prelude::*;

pub mod grid;
pub mod tetronimos;

use grid::Grid;
use tetronimos::{
    spec_check_pixel, spec_draw_rel, spec_rotate_and_kick_rel, spec_translate_ok, spec_translated,
    Color, Pixel, Tetronimo, TetronimoBag, Type,
};

verus! {

/// A scoring event: rows cleared in one sweep, the soft-drop distance of a
/// locked piece, or the rows traveled by a hard drop.
pub enum ScoreAction {
    RowCleared(u8),
    FallLength(u8),
    HardDrop(u8),
}

/// Points awarded for clearing `n` rows at once.
pub open spec fn spec_row_points(n: int) -> int {
    if n <= 0 {
        0
    } else if n == 1 {
        40
    } else if n == 2 {
        100
    } else if n == 3 {
        300
    } else {
        1200
    }
}

/// Points awarded for a scoring event.
pub open spec fn spec_score_points(action: ScoreAction) -> int {
    match action {
        ScoreAction::RowCleared(n) => spec_row_points(n as int),
        ScoreAction::FallLength(n) => n as int,
        ScoreAction::HardDrop(n) => 2 * (n as int),
    }
}

/// The score after adding `p` points, sticking at the maximum rather than
/// wrapping; the score never decreases.
pub open spec fn spec_score_after(s: u64, p: int) -> u64 {
    if s + p <= u64::MAX {
        (s + p) as u64
    } else {
        u64::MAX
    }
}

/// The soft-drop counter after a move, sticking at its maximum.
pub open spec fn spec_dropped_after(d: u8, inc: bool) -> u8 {
    if inc {
        if d < 255 {
            (d + 1) as u8
        } else {
            255u8
        }
    } else {
        d
    }
}

/// What one translate attempt of the falling piece leaves behind: on a
/// legal destination the cells shift and the soft-drop counter may count;
/// otherwise the piece is exactly as before.
pub open spec fn spec_move_outcome(
    pre: Tetronimo,
    post: Option<Tetronimo>,
    dx: int,
    dy: int,
    grid: Map<(int, int), Color>,
    inc: bool,
) -> bool {
    post matches Some(p) && {
        if spec_translate_ok(pre.pixels@, dx, dy, grid) {
            &&& p.pixels@ == spec_translated(pre.pixels@, dx, dy)
            &&& p.rotation == pre.rotation
            &&& p.t == pre.t
            &&& p.dropped == spec_dropped_after(pre.dropped, inc)
        } else {
            p == pre
        }
    }
}

/// The grid after settling each of `cells` in order.
pub open spec fn spec_lock_grid(grid: Map<(int, int), Color>, cells: Seq<Pixel>) -> Map<
    (int, int),
    Color,
>
    decreases cells.len(),
{
    if cells.len() == 0 {
        grid
    } else {
        spec_lock_grid(
            grid.insert((cells[0].x as int, cells[0].y as int), cells[0].c),
            cells.drop_first(),
        )
    }
}

/// Whether a piece sits in the spawn state of kind `k`.
pub open spec fn spec_is_spawn(p: Tetronimo, k: Type) -> bool {
    &&& p.pixels@ == tetronimos::tables::spec_initial_cells(k)
    &&& p.rotation == 0
    &&& p.dropped == 0
    &&& p.t == k
}

/// Whether every visible column of `row` is settled.
pub open spec fn spec_row_full(grid: Map<(int, int), Color>, row: int) -> bool {
    forall|c: int| 0 <= c <= 9 ==> grid.contains_key((c, row))
}

/// The settled color at (x, y), if any.
pub open spec fn spec_grid_at(grid: Map<(int, int), Color>, x: int, y: int) -> Option<Color> {
    if grid.contains_key((x, y)) {
        Some(grid[(x, y)])
    } else {
        None
    }
}

/// The board: the settled grid, the falling and preview pieces, the score,
/// the game-over and paused flags, and the randomizer bag. Exactly one
/// exists per game session, and every operation on it is total: blocked
/// moves and rotations leave it unchanged rather than failing.
pub struct Board {
    falling: Option<Tetronimo>,
    upcoming: Option<Tetronimo>,
    board: Grid,
    score: u64,
    game_over: bool,
    paused: bool,
    bag: TetronimoBag,
}

impl Board {
    pub closed spec fn spec_grid(self) -> Map<(int, int), Color> {
        self.board@
    }

    pub closed spec fn spec_score(self) -> u64 {
        self.score
    }

    pub closed spec fn spec_game_over(self) -> bool {
        self.game_over
    }

    pub closed spec fn spec_paused(self) -> bool {
        self.paused
    }

    pub closed spec fn spec_falling(self) -> Option<Tetronimo> {
        self.falling
    }

    pub closed spec fn spec_upcoming(self) -> Option<Tetronimo> {
        self.upcoming
    }

    pub closed spec fn spec_bag(self) -> Set<Type> {
        self.bag@
    }

    /// How many cells are settled in the grid.
    pub closed spec fn spec_grid_size(self) -> nat {
        self.board.spec_size()
    }

    /// The board's invariant: the grid is well formed and any owned pieces
    /// are well formed and in play.
    pub closed spec fn wf(self) -> bool {
        &&& self.board.wf()
        &&& (self.falling matches Some(t) ==> t.wf() && t.in_play())
        &&& (self.upcoming matches Some(t) ==> t.wf() && t.in_play())
        &&& self.bag.wf()
    }

    /// Everything but the falling piece is as it was.
    pub open spec fn frame_but_falling(pre: Board, post: Board) -> bool {
        &&& post.spec_grid() == pre.spec_grid()
        &&& post.spec_score() == pre.spec_score()
        &&& post.spec_game_over() == pre.spec_game_over()
        &&& post.spec_paused() == pre.spec_paused()
        &&& post.spec_bag() == pre.spec_bag()
        &&& post.spec_upcoming() == pre.spec_upcoming()
    }

    /// A fresh board: empty grid, no pieces yet, score zero, running.
    pub fn new() -> (b: Board)
        ensures
            b.wf(),
            b.spec_grid() == Map::<(int, int), Color>::empty(),
            b.spec_score() == 0,
            !b.spec_game_over(),
            !b.spec_paused(),
            b.spec_falling() is None,
            b.spec_upcoming() is None,
            b.spec_bag() == tetronimos::spec_all_types(),
    {
        Board {
            falling: None,
            upcoming: None,
            board: Grid::new(),
            score: 0,
            game_over: false,
            paused: false,
            bag: TetronimoBag::new(),
        }
    }

    /// Move the falling piece one column left, if that spot is free; a
    /// no-op while paused or without a falling piece.
    pub fn move_left(&mut self)
        requires
            old(self).wf(),
        ensures
            final(self).wf(),
            old(self).spec_paused() || old(self).spec_falling() is None ==> *final(self) == *old(
                self,
            ),
            !old(self).spec_paused() ==> (old(self).spec_falling() matches Some(t) ==> {
                &&& spec_move_outcome(
                    t,
                    final(self).spec_falling(),
                    -1,
                    0,
                    old(self).spec_grid(),
                    false,
                )
                &&& Board::frame_but_falling(*old(self), *final(self))
            }),
    {
        if self.paused {
            return ;
        }
        let taken = self.falling.take();
        if let Some(mut t) = taken {
            t.move_offset((-1, 0), &self.board);
            self.falling = Some(t);
        }
    }

    /// Move the falling piece one column right, if that spot is free; a
    /// no-op while paused or without a falling piece.
    pub fn move_right(&mut self)
        requires
            old(self).wf(),
        ensures
            final(self).wf(),
            old(self).spec_paused() || old(self).spec_falling() is None ==> *final(self) == *old(
                self,
            ),
            !old(self).spec_paused() ==> (old(self).spec_falling() matches Some(t) ==> {
                &&& spec_move_outcome(
                    t,
                    final(self).spec_falling(),
                    1,
                    0,
                    old(self).spec_grid(),
                    false,
                )
                &&& Board::frame_but_falling(*old(self), *final(self))
            }),
    {
        if self.paused {
            return ;
        }
        let taken = self.falling.take();
        if let Some(mut t) = taken {
            t.move_offset((1, 0), &self.board);
            self.falling = Some(t);
        }
    }

    /// Move the falling piece one row down, if that spot is free, counting
    /// the move for soft-drop scoring; a no-op while paused or without a
    /// falling piece.
    pub fn move_down(&mut self)
        requires
            old(self).wf(),
        ensures
            final(self).wf(),
            old(self).spec_paused() || old(self).spec_falling() is None ==> *final(self) == *old(
                self,
            ),
            !old(self).spec_paused() ==> (old(self).spec_falling() matches Some(t) ==> {
                &&& spec_move_outcome(
                    t,
                    final(self).spec_falling(),
                    0,
                    1,
                    old(self).spec_grid(),
                    true,
                )
                &&& Board::frame_but_falling(*old(self), *final(self))
            }),
    {
        if self.paused {
            return ;
        }
        let taken = self.falling.take();
        if let Some(mut t) = taken {
            if t.move_offset((0, 1), &self.board) {
                t.inc_dropped();
            }
            self.falling = Some(t);
        }
    }

    /// Rotate the falling piece a quarter turn with wall kicks; if no kick
    /// fits, the piece stays exactly as it was. A no-op while paused or
    /// without a falling piece.
    pub fn rotate(&mut self, clockwise: bool)
        requires
            old(self).wf(),
        ensures
            final(self).wf(),
            old(self).spec_paused() || old(self).spec_falling() is None ==> *final(self) == *old(
                self,
            ),
            !old(self).spec_paused() ==> (old(self).spec_falling() matches Some(t) ==> {
                &&& final(self).spec_falling() matches Some(p) && spec_rotate_and_kick_rel(
                    t.pixels@,
                    t.rotation,
                    t.t,
                    clockwise,
                    old(self).spec_grid(),
                    p.pixels@,
                    p.rotation,
                ) && p.dropped == t.dropped && p.t == t.t
                &&& Board::frame_but_falling(*old(self), *final(self))
            }),
    {
        if self.paused {
            return ;
        }
        let taken = self.falling.take();
        if let Some(mut t) = taken {
            t.rotate_and_kick(clockwise, &self.board);
            self.falling = Some(t);
        }
    }

    /// Flip the paused flag; nothing else changes, and in particular the
    /// game-over flag is unaffected.
    pub fn toggle_pause(&mut self)
        ensures
            final(self).spec_paused() == !old(self).spec_paused(),
            final(self).spec_grid() == old(self).spec_grid(),
            final(self).spec_score() == old(self).spec_score(),
            final(self).spec_game_over() == old(self).spec_game_over(),
            final(self).spec_falling() == old(self).spec_falling(),
            final(self).spec_upcoming() == old(self).spec_upcoming(),
            final(self).spec_bag() == old(self).spec_bag(),
            old(self).wf() ==> final(self).wf(),
    {
        self.paused = !self.paused;
    }

    /// Whether the game is paused.
    pub fn is_paused(&self) -> (r: bool)
        ensures
            r == self.spec_paused(),
    {
        self.paused
    }

    /// Whether the game has topped out.
    pub fn is_game_over(&self) -> (r: bool)
        ensures
            r == self.spec_game_over(),
    {
        self.game_over
    }

    /// The current score.
    pub fn score(&self) -> (s: u64)
        ensures
            s == self.spec_score(),
    {
        self.score
    }

    /// Award points for a scoring event: a table amount for cleared rows,
    /// the fall length itself, or twice the hard-drop distance. The score
    /// sticks at its maximum rather than wrapping, so it never decreases.
    pub fn add_score(&mut self, action: ScoreAction)
        ensures
            final(self).spec_score() == spec_score_after(
                old(self).spec_score(),
                spec_score_points(action),
            ),
            final(self).spec_grid() == old(self).spec_grid(),
            final(self).spec_game_over() == old(self).spec_game_over(),
            final(self).spec_paused() == old(self).spec_paused(),
            final(self).spec_falling() == old(self).spec_falling(),
            final(self).spec_upcoming() == old(self).spec_upcoming(),
            final(self).spec_bag() == old(self).spec_bag(),
            old(self).wf() ==> final(self).wf(),
    {
        let points: u64 = match action {
            ScoreAction::RowCleared(n) => {
                match n {
                    0 => 0,
                    1 => 40,
                    2 => 100,
                    3 => 300,
                    _ => 1200,
                }
            },
            ScoreAction::FallLength(n) => n as u64,
            ScoreAction::HardDrop(n) => 2 * (n as u64),
        };
        if self.score <= u64::MAX - points {
            self.score = self.score + points;
        } else {
            self.score = u64::MAX;
        }
    }

    /// The color shown at (x, y): the falling piece's cell there if it has
    /// one, else the settled cell there, if any.
    pub fn check_pixel(&self, x: i8, y: i8) -> (r: Option<Color>)
        requires
            self.wf(),
        ensures
            r == (match self.spec_falling() {
                Some(t) => match spec_check_pixel(t.pixels@, x as int, y as int) {
                    Some(c) => Some(c),
                    None => spec_grid_at(self.spec_grid(), x as int, y as int),
                },
                None => spec_grid_at(self.spec_grid(), x as int, y as int),
            }),
    {
        if let Some(t) = &self.falling {
            if let Some(c) = t.check_pixel(x, y) {
                return Some(c);
            }
        }
        self.board.get(x, y)
    }

    /// The preview piece's four cells, once a preview exists.
    pub fn upcoming_pixels(&self) -> (r: Option<Vec<Pixel>>)
        requires
            self.wf(),
        ensures
            r matches Some(v) ==> self.spec_upcoming() matches Some(t) && v@ == t.pixels@,
            r is None <==> self.spec_upcoming() is None,
    {
        match &self.upcoming {
            Some(t) => {
                let mut v: Vec<Pixel> = Vec::new();
                let mut i: usize = 0;
                let n = t.pixels.len();
                while i < n
                    invariant
                        i <= n,
                        n == t.pixels@.len(),
                        v@ =~= t.pixels@.take(i as int),
                    decreases n - i,
                {
                    v.push(t.pixels[i]);
                    proof {
                        assert(v@ =~= t.pixels@.take(i + 1));
                    }
                    i = i + 1;
                }
                proof {
                    assert(t.pixels@.take(n as int) =~= t.pixels@);
                }
                Some(v)
            },
            None => None,
        }
    }

    /// Copy the piece's four cells into the settled grid; a cell above the
    /// visible board tops the game out. The piece's soft-drop distance is
    /// scored and the falling slot stays empty.
    fn lock_piece(&mut self, t: Tetronimo)
        requires
            old(self).wf(),
            t.wf(),
            t.in_play(),
            old(self).spec_falling() is None,
        ensures
            final(self).wf(),
            final(self).spec_grid() == spec_lock_grid(old(self).spec_grid(), t.pixels@),
            final(self).spec_game_over() == (old(self).spec_game_over() || exists|i: int|
                0 <= i < 4 && (#[trigger] t.pixels@[i]).y < 0),
            final(self).spec_score() == spec_score_after(
                old(self).spec_score(),
                t.spec_dropped() as int,
            ),
            final(self).spec_falling() is None,
            final(self).spec_upcoming() == old(self).spec_upcoming(),
            final(self).spec_paused() == old(self).spec_paused(),
            final(self).spec_bag() == old(self).spec_bag(),
    {
        let mut i: usize = 0;
        proof {
            assert(t.pixels@.skip(0) =~= t.pixels@);
        }
        while i < 4
            invariant
                i <= 4,
                t.wf(),
                t.in_play(),
                self.board.wf(),
                self.falling is None,
                self.falling == old(self).falling,
                self.upcoming == old(self).upcoming,
                self.paused == old(self).paused,
                self.score == old(self).score,
                self.bag == old(self).bag,
                old(self).wf(),
                spec_lock_grid(old(self).spec_grid(), t.pixels@) == spec_lock_grid(
                    self.board@,
                    t.pixels@.skip(i as int),
                ),
                self.game_over == (old(self).game_over || exists|j: int|
                    0 <= j < i && (#[trigger] t.pixels@[j]).y < 0),
            decreases 4 - i,
        {
            let p = t.pixels[i];
            if p.y < 0 {
                self.game_over = true;
            }
            proof {
                assert(t.pixels@.skip(i as int)[0] == p);
                assert(t.pixels@.skip(i as int).drop_first() =~= t.pixels@.skip(i + 1));
                if p.y < 0 {
                    assert(0 <= i < i + 1 && t.pixels@[i as int].y < 0);
                }
            }
            self.board.insert(p.x, p.y, p.c);
            i = i + 1;
        }
        proof {
            assert(t.pixels@.skip(4) =~= Seq::<Pixel>::empty());
        }
        let fall = t.dropped();
        self.add_score(ScoreAction::FallLength(fall));
    }

    /// One period of gravity. While the game is over or paused, nothing
    /// happens. With no falling piece, the preview piece is promoted to
    /// falling (drawing one fresh if no preview exists yet) and a new
    /// preview is drawn. Otherwise the piece moves one row down; if it
    /// cannot, it locks into the grid and this returns true.
    pub fn tick(&mut self) -> (stuck: bool)
        requires
            old(self).wf(),
        ensures
            final(self).wf(),
            old(self).spec_game_over() || old(self).spec_paused() ==> *final(self) == *old(self)
                && !stuck,
            !old(self).spec_game_over() && !old(self).spec_paused() && old(self).spec_falling()
                is None ==> {
                &&& !stuck
                &&& final(self).spec_grid() == old(self).spec_grid()
                &&& final(self).spec_score() == old(self).spec_score()
                &&& final(self).spec_game_over() == old(self).spec_game_over()
                &&& final(self).spec_paused() == old(self).spec_paused()
                &&& (match old(self).spec_upcoming() {
                    Some(u) => {
                        &&& final(self).spec_falling() == Some(u)
                        &&& exists|k: Type|
                            {
                                &&& #[trigger] spec_draw_rel(
                                    old(self).spec_bag(),
                                    k,
                                    final(self).spec_bag(),
                                )
                                &&& final(self).spec_upcoming() matches Some(nu) && spec_is_spawn(
                                    nu,
                                    k,
                                )
                            }
                    },
                    None => exists|k1: Type, k2: Type, mid: Set<Type>|
                        {
                            &&& #[trigger] spec_draw_rel(old(self).spec_bag(), k1, mid)
                            &&& final(self).spec_falling() matches Some(f) && spec_is_spawn(f, k1)
                            &&& #[trigger] spec_draw_rel(mid, k2, final(self).spec_bag())
                            &&& final(self).spec_upcoming() matches Some(nu) && spec_is_spawn(
                                nu,
                                k2,
                            )
                        },
                })
            },
            !old(self).spec_game_over() && !old(self).spec_paused() ==> (old(
                self,
            ).spec_falling() matches Some(t) ==> {
                if spec_translate_ok(t.pixels@, 0, 1, old(self).spec_grid()) {
                    &&& !stuck
                    &&& Board::frame_but_falling(*old(self), *final(self))
                    &&& final(self).spec_falling() matches Some(p) && p.pixels@ == spec_translated(
                        t.pixels@,
                        0,
                        1,
                    ) && p.rotation == t.rotation && p.t == t.t && p.dropped == t.dropped
                } else {
                    &&& stuck
                    &&& final(self).spec_grid() == spec_lock_grid(old(self).spec_grid(), t.pixels@)
                    &&& final(self).spec_game_over() == (old(self).spec_game_over() || exists|i: int|
                        0 <= i < 4 && (#[trigger] t.pixels@[i]).y < 0)
                    &&& final(self).spec_score() == spec_score_after(
                        old(self).spec_score(),
                        t.spec_dropped() as int,
                    )
                    &&& final(self).spec_falling() is None
                    &&& final(self).spec_upcoming() == old(self).spec_upcoming()
                    &&& final(self).spec_paused() == old(self).spec_paused()
                    &&& final(self).spec_bag() == old(self).spec_bag()
                }
            }),
    {
        if self.game_over || self.paused {
            return false;
        }
        let taken = self.falling.take();
        match taken {
            Some(mut t) => {
                if t.move_offset((0, 1), &self.board) {
                    self.falling = Some(t);
                } else {
                    self.lock_piece(t);
                    return true;
                }
            },
            None => {
                let promoted = self.upcoming.take();
                match promoted {
                    Some(u) => {
                        self.falling = Some(u);
                        let k = self.bag.draw_next();
                        self.upcoming = Some(Tetronimo::new(k));
                        proof {
                            assert(spec_draw_rel(old(self).spec_bag(), k, self.spec_bag()));
                            assert(self.spec_upcoming() matches Some(nu) && spec_is_spawn(nu, k));
                        }
                    },
                    None => {
                        let k1 = self.bag.draw_next();
                        self.falling = Some(Tetronimo::new(k1));
                        let ghost mid = self.bag@;
                        let k2 = self.bag.draw_next();
                        self.upcoming = Some(Tetronimo::new(k2));
                        proof {
                            assert(spec_draw_rel(old(self).spec_bag(), k1, mid) && spec_draw_rel(
                                mid,
                                k2,
                                self.spec_bag(),
                            ));
                            assert(self.spec_falling() matches Some(f) && spec_is_spawn(f, k1));
                            assert(self.spec_upcoming() matches Some(nu) && spec_is_spawn(nu, k2));
                        }
                    },
                }
            },
        }
        false
    }

    /// Drop the falling piece straight down as far as it goes, lock it, and
    /// award twice the distance traveled on top of the lock's own fall
    /// score. A no-op while paused or over, or without a falling piece.
    pub fn hard_drop(&mut self)
        requires
            old(self).wf(),
        ensures
            final(self).wf(),
            old(self).spec_game_over() || old(self).spec_paused() || old(self).spec_falling()
                is None ==> *final(self) == *old(self),
            !old(self).spec_game_over() && !old(self).spec_paused() ==> (old(
                self,
            ).spec_falling() matches Some(t) ==> exists|n: int|
                {
                    &&& 0 <= n
                    &&& (forall|k: int|
                        0 <= k < n ==> spec_translate_ok(
                            #[trigger] spec_translated(t.pixels@, 0, k),
                            0,
                            1,
                            old(self).spec_grid(),
                        ))
                    &&& !spec_translate_ok(
                        spec_translated(t.pixels@, 0, n),
                        0,
                        1,
                        old(self).spec_grid(),
                    )
                    &&& final(self).spec_grid() == spec_lock_grid(
                        old(self).spec_grid(),
                        #[trigger] spec_translated(t.pixels@, 0, n),
                    )
                    &&& final(self).spec_game_over() == (old(self).spec_game_over() || exists|i: int|
                        0 <= i < 4 && (#[trigger] t.pixels@[i]).y + n < 0)
                    &&& final(self).spec_score() == spec_score_after(
                        spec_score_after(old(self).spec_score(), t.spec_dropped() as int),
                        2 * n,
                    )
                    &&& final(self).spec_falling() is None
                    &&& final(self).spec_upcoming() == old(self).spec_upcoming()
                    &&& final(self).spec_paused() == old(self).spec_paused()
                    &&& final(self).spec_bag() == old(self).spec_bag()
                }),
    {
        if self.game_over || self.paused {
            return ;
        }
        let taken = self.falling.take();
        match taken {
            None => {
                proof {
                    assert(*self == *old(self));
                }
            },
            Some(mut t) => {
                let ghost orig = t;
                let mut count: u8 = 0;
                let mut moving = true;
                proof {
                    assert(spec_translated(orig.pixels@, 0, 0) =~= orig.pixels@);
                }
                while moving
                    invariant
                        self.falling is None,
                        self.upcoming == old(self).upcoming,
                        self.paused == old(self).paused,
                        self.game_over == old(self).game_over,
                        self.score == old(self).score,
                        self.bag == old(self).bag,
                        self.board == old(self).board,
                        old(self).wf(),
                        self.board.wf(),
                        orig.wf(),
                        orig.in_play(),
                        t.wf(),
                        t.in_play(),
                        t.t == orig.t,
                        t.rotation == orig.rotation,
                        t.dropped == orig.dropped,
                        0 <= count <= 143,
                        t.pixels@[0].y == orig.pixels@[0].y + count,
                        t.pixels@ == spec_translated(orig.pixels@, 0, count as int),
                        forall|k: int|
                            0 <= k < count ==> spec_translate_ok(
                                #[trigger] spec_translated(orig.pixels@, 0, k),
                                0,
                                1,
                                self.board@,
                            ),
                        !moving ==> !spec_translate_ok(
                            spec_translated(orig.pixels@, 0, count as int),
                            0,
                            1,
                            self.board@,
                        ),
                    decreases (if moving {
                        1int
                    } else {
                        0int
                    }), 19 - t.pixels@[0].y,
                {
                    if t.move_offset((0, 1), &self.board) {
                        proof {
                            assert(spec_translated(orig.pixels@, 0, count + 1) =~= spec_translated(
                                spec_translated(orig.pixels@, 0, count as int),
                                0,
                                1,
                            ));
                        }
                        count = count + 1;
                    } else {
                        moving = false;
                    }
                }
                let ghost landed = t.pixels@;
                let ghost pivot_y = t.pixels@[0].y as int;
                self.lock_piece(t);
                self.add_score(ScoreAction::HardDrop(count));
                proof {
                    let n = count as int;
                    assert(landed == spec_translated(orig.pixels@, 0, n));
                    assert(pivot_y == orig.pixels@[0].y + n);
                    assert forall|i: int|
                        #![trigger spec_translated(orig.pixels@, 0, n)[i]]
                        #![trigger orig.pixels@[i]]
                        0 <= i < 4 implies ((spec_translated(orig.pixels@, 0, n)[i]).y < 0) == (
                    orig.pixels@[i].y + n < 0) by {
                        if i > 0 {
                            assert(-2 <= orig.pixels@[i].y - orig.pixels@[0].y <= 2);
                        }
                        assert(-126 <= orig.pixels@[i].y + n <= 21);
                        assert(spec_translated(orig.pixels@, 0, n)[i].y == orig.pixels@[i].y + n);
                    }
                    assert(!spec_translate_ok(
                        spec_translated(orig.pixels@, 0, n),
                        0,
                        1,
                        old(self).spec_grid(),
                    ));
                    assert(self.spec_grid() == spec_lock_grid(
                        old(self).spec_grid(),
                        spec_translated(orig.pixels@, 0, n),
                    ));
                    assert(self.spec_game_over() == (old(self).spec_game_over() || exists|i: int|
                        0 <= i < 4 && (#[trigger] orig.pixels@[i]).y + n < 0));
                    assert(self.spec_score() == spec_score_after(
                        spec_score_after(old(self).spec_score(), orig.spec_dropped() as int),
                        2 * n,
                    ));
                }
            },
        }
    }

    /// The bottom-most fully occupied visible row, if any: every column
    /// 0..=9 of it is settled, and no row below it is full.
    pub fn can_delete(&self) -> (r: Option<i8>)
        requires
            self.wf(),
        ensures
            r matches Some(row) ==> 0 <= row <= 19 && spec_row_full(self.spec_grid(), row as int)
                && (forall|r2: int|
                row < r2 <= 19 ==> !spec_row_full(self.spec_grid(), r2)),
            r is None ==> forall|r2: int| 0 <= r2 <= 19 ==> !spec_row_full(self.spec_grid(), r2),
    {
        let mut row: i8 = 19;
        while row >= 0
            invariant
                self.wf(),
                -1 <= row <= 19,
                forall|r2: int| row < r2 <= 19 ==> !spec_row_full(self.spec_grid(), r2),
            decreases row + 1,
        {
            let mut all_filled = true;
            let mut col: i8 = 0;
            while col < 10 && all_filled
                invariant
                    self.wf(),
                    0 <= col <= 10,
                    all_filled ==> forall|c: int|
                        0 <= c < col ==> self.spec_grid().contains_key((c, row as int)),
                    !all_filled ==> !spec_row_full(self.spec_grid(), row as int),
                decreases 10 - col + (if all_filled {
                    1int
                } else {
                    0int
                }),
            {
                if !self.board.occupied(col, row) {
                    all_filled = false;
                } else {
                    col = col + 1;
                }
            }
            if all_filled {
                return Some(row);
            }
            row = row - 1;
        }
        None
    }

    /// Remove every settled cell of `row`.
    pub fn delete(&mut self, row: i8)
        requires
            old(self).wf(),
        ensures
            final(self).wf(),
            final(self).spec_grid() == spec_delete_row(old(self).spec_grid(), row as int),
            final(self).spec_grid_size() <= old(self).spec_grid_size(),
            spec_row_full(old(self).spec_grid(), row as int) ==> final(self).spec_grid_size()
                == old(self).spec_grid_size() - 10,
            final(self).spec_score() == old(self).spec_score(),
            final(self).spec_game_over() == old(self).spec_game_over(),
            final(self).spec_paused() == old(self).spec_paused(),
            final(self).spec_falling() == old(self).spec_falling(),
            final(self).spec_upcoming() == old(self).spec_upcoming(),
            final(self).spec_bag() == old(self).spec_bag(),
    {
        let mut col: i8 = 0;
        proof {
            assert(self.board@ =~= spec_delete_prefix(old(self).spec_grid(), row as int, 0));
        }
        while col < 10
            invariant
                0 <= col <= 10,
                self.board.wf(),
                self.falling == old(self).falling,
                self.upcoming == old(self).upcoming,
                self.paused == old(self).paused,
                self.game_over == old(self).game_over,
                self.score == old(self).score,
                self.bag == old(self).bag,
                old(self).wf(),
                self.board@ == spec_delete_prefix(old(self).spec_grid(), row as int, col as int),
                self.board.spec_size() <= old(self).board.spec_size(),
                spec_row_full(old(self).spec_grid(), row as int) ==> self.board.spec_size()
                    == old(self).board.spec_size() - col,
            decreases 10 - col,
        {
            proof {
                assert(self.board@.contains_key((col as int, row as int)) == old(
                    self,
                ).spec_grid().contains_key((col as int, row as int)));
            }
            self.board.remove(col, row);
            proof {
                assert(self.board@ =~= spec_delete_prefix(
                    old(self).spec_grid(),
                    row as int,
                    col + 1,
                ));
            }
            col = col + 1;
        }
        proof {
            old(self).board.lemma_wf_keys();
            assert(self.board@ =~= spec_delete_row(old(self).spec_grid(), row as int));
        }
    }

    /// Shift every row from `row` up through the spawn buffer down by one:
    /// each row of the range takes what the row above it held, so the
    /// deleted row is filled and the topmost shifted row is freed.
    pub fn collapse(&mut self, row: i8)
        requires
            old(self).wf(),
        ensures
            final(self).wf(),
            final(self).spec_grid() == spec_collapsed(old(self).spec_grid(), row as int),
            row >= -2 ==> final(self).spec_grid_size() == old(self).spec_grid_size()
                + spec_row_count(old(self).spec_grid(), -3, 10) - spec_row_count(
                old(self).spec_grid(),
                row as int,
                10,
            ),
            row < -2 ==> final(self).spec_grid_size() == old(self).spec_grid_size(),
            final(self).spec_score() == old(self).spec_score(),
            final(self).spec_game_over() == old(self).spec_game_over(),
            final(self).spec_paused() == old(self).spec_paused(),
            final(self).spec_falling() == old(self).spec_falling(),
            final(self).spec_upcoming() == old(self).spec_upcoming(),
            final(self).spec_bag() == old(self).spec_bag(),
    {
        if row < -2 {
            proof {
                assert(self.board@ =~= spec_collapsed(old(self).spec_grid(), row as int));
            }
            return ;
        }
        let mut r: i8 = row;
        proof {
            assert(self.board@ =~= spec_collapse_outer(old(self).spec_grid(), row as int, row as int));
        }
        while r >= -2
            invariant
                -3 <= r <= row,
                self.board.wf(),
                self.falling == old(self).falling,
                self.upcoming == old(self).upcoming,
                self.paused == old(self).paused,
                self.game_over == old(self).game_over,
                self.score == old(self).score,
                self.bag == old(self).bag,
                old(self).wf(),
                self.board@ == spec_collapse_outer(old(self).spec_grid(), row as int, r as int),
                self.board.spec_size() == old(self).board.spec_size() + spec_row_count(
                    old(self).spec_grid(),
                    r as int,
                    10,
                ) - spec_row_count(old(self).spec_grid(), row as int, 10),
            decreases r + 3,
        {
            let mut col: i8 = 0;
            while col < 10
                invariant
                    -2 <= r <= row,
                    0 <= col <= 10,
                    self.board.wf(),
                    self.falling == old(self).falling,
                    self.upcoming == old(self).upcoming,
                    self.paused == old(self).paused,
                    self.game_over == old(self).game_over,
                    self.score == old(self).score,
                    self.bag == old(self).bag,
                    old(self).wf(),
                    self.board@ == spec_collapse_inner(
                        old(self).spec_grid(),
                        row as int,
                        r as int,
                        col as int,
                    ),
                    self.board.spec_size() == old(self).board.spec_size() + spec_row_count(
                        old(self).spec_grid(),
                        r as int,
                        10,
                    ) - spec_row_count(old(self).spec_grid(), row as int, 10) + spec_row_count(
                        old(self).spec_grid(),
                        r - 1,
                        col as int,
                    ) - spec_row_count(old(self).spec_grid(), r as int, col as int),
                decreases 10 - col,
            {
                proof {
                    assert(self.board@.contains_key((col as int, r - 1)) == old(
                        self,
                    ).spec_grid().contains_key((col as int, r - 1)));
                    assert(self.board@.contains_key((col as int, r as int)) == old(
                        self,
                    ).spec_grid().contains_key((col as int, r as int)));
                    assert(spec_row_count(old(self).spec_grid(), r - 1, col + 1)
                        == spec_row_count(old(self).spec_grid(), r - 1, col as int) + (if old(
                        self,
                    ).spec_grid().contains_key((col as int, r - 1)) {
                        1int
                    } else {
                        0int
                    }));
                    assert(spec_row_count(old(self).spec_grid(), r as int, col + 1)
                        == spec_row_count(old(self).spec_grid(), r as int, col as int) + (if old(
                        self,
                    ).spec_grid().contains_key((col as int, r as int)) {
                        1int
                    } else {
                        0int
                    }));
                }
                let src = self.board.get(col, r - 1);
                match src {
                    None => {
                        self.board.remove(col, r);
                    },
                    Some(c) => {
                        self.board.insert(col, r, c);
                    },
                }
                proof {
                    assert(self.board@ =~= spec_collapse_inner(
                        old(self).spec_grid(),
                        row as int,
                        r as int,
                        col + 1,
                    ));
                }
                col = col + 1;
            }
            proof {
                old(self).board.lemma_wf_keys();
                assert(self.board@ =~= spec_collapse_outer(
                    old(self).spec_grid(),
                    row as int,
                    r - 1,
                ));
            }
            r = r - 1;
        }
        proof {
            assert(self.board@ =~= spec_collapsed(old(self).spec_grid(), row as int));
        }
    }

    /// Settle one cell directly, as loading a saved position would; the
    /// falling and preview pieces, score and flags are untouched.
    pub fn settle(&mut self, x: i8, y: i8, c: Color)
        requires
            old(self).wf(),
            0 <= x <= 9,
        ensures
            final(self).wf(),
            final(self).spec_grid() == old(self).spec_grid().insert((x as int, y as int), c),
            final(self).spec_score() == old(self).spec_score(),
            final(self).spec_game_over() == old(self).spec_game_over(),
            final(self).spec_paused() == old(self).spec_paused(),
            final(self).spec_falling() == old(self).spec_falling(),
            final(self).spec_upcoming() == old(self).spec_upcoming(),
            final(self).spec_bag() == old(self).spec_bag(),
    {
        self.board.insert(x, y, c);
    }

    /// The line-clear sweep run after a lock: repeatedly find the
    /// bottom-most full visible row, delete it and collapse the rows above,
    /// until no full row remains; then score the total number of rows
    /// removed in one single award. Returns that total, capped at the
    /// counter's maximum. The spawn-buffer row just above the collapsed
    /// range must not be completely full: a full row there would refill the
    /// board as fast as the sweep clears it, and the sweep would never end.
    pub fn clear_full_rows(&mut self) -> (n: u8)
        requires
            old(self).wf(),
            !spec_row_full(old(self).spec_grid(), -3),
        ensures
            final(self).wf(),
            forall|r2: int| 0 <= r2 <= 19 ==> !spec_row_full(final(self).spec_grid(), r2),
            exists|rows: Seq<int>, gs: Seq<Map<(int, int), Color>>|
                {
                    &&& #[trigger] spec_clear_trace(rows, gs)
                    &&& gs[0] == old(self).spec_grid()
                    &&& gs.last() == final(self).spec_grid()
                    &&& final(self).spec_score() == spec_score_after(
                        old(self).spec_score(),
                        spec_row_points(rows.len() as int),
                    )
                    &&& n as int == (if rows.len() < 255 {
                        rows.len() as int
                    } else {
                        255int
                    })
                },
            final(self).spec_game_over() == old(self).spec_game_over(),
            final(self).spec_paused() == old(self).spec_paused(),
            final(self).spec_falling() == old(self).spec_falling(),
            final(self).spec_upcoming() == old(self).spec_upcoming(),
            final(self).spec_bag() == old(self).spec_bag(),
    {
        let mut count: u8 = 0;
        let mut done = false;
        let ghost mut rows_t: Seq<int> = Seq::empty();
        let ghost mut gs_t: Seq<Map<(int, int), Color>> = seq![old(self).spec_grid()];
        while !done
            invariant
                self.wf(),
                self.falling == old(self).falling,
                self.upcoming == old(self).upcoming,
                self.paused == old(self).paused,
                self.game_over == old(self).game_over,
                self.score == old(self).score,
                self.bag@ == old(self).bag@,
                old(self).wf(),
                !spec_row_full(self.board@, -3),
                gs_t.len() == rows_t.len() + 1,
                gs_t[0] == old(self).spec_grid(),
                gs_t.last() == self.board@,
                spec_clear_trace(rows_t, gs_t),
                count as int == (if rows_t.len() < 255 {
                    rows_t.len() as int
                } else {
                    255int
                }),
                done ==> forall|r2: int| 0 <= r2 <= 19 ==> !spec_row_full(self.board@, r2),
            decreases self.board.spec_size() + (if done {
                0int
            } else {
                1int
            }),
        {
            let ghost size_pre = self.board.spec_size();
            let r_opt = self.can_delete();
            match r_opt {
                None => {
                    done = true;
                    proof {
                        assert(self.spec_grid() == self.board@);
                    }
                },
                Some(row) => {
                    let ghost g_pre = self.board@;
                    self.delete(row);
                    let ghost g_mid = self.board@;
                    let ghost size_mid = self.board.spec_size();
                    proof {
                        // Deleting a full row removes its ten cells; the
                        // open column of the buffer row stays open.
                        assert(size_mid == size_pre - 10);
                        let c0 = choose|c: int| 0 <= c <= 9 && !#[trigger] g_pre.contains_key((c, -3));
                        assert(!g_mid.contains_key((c0, -3)));
                        assert(!spec_row_full(g_mid, -3));
                        lemma_row_count_missing(g_mid, -3, c0, 10);
                        assert forall|cc: int| 0 <= cc < 10 implies !g_mid.contains_key(
                            (cc, row as int),
                        ) by {}
                        lemma_row_count_zero(g_mid, row as int, 10);
                    }
                    self.collapse(row);
                    proof {
                        // The collapse re-adds at most the buffer row's
                        // cells, so the grid shrinks every cycle.
                        assert(self.board.spec_size() <= size_mid + 9);
                        assert(self.board.spec_size() < size_pre);
                        let c0 = choose|c: int| 0 <= c <= 9 && !#[trigger] g_pre.contains_key((c, -3));
                        assert(!self.board@.contains_key((c0, -3)));
                        assert(!spec_row_full(self.board@, -3));
                        assert(spec_clear_step(g_pre, row as int, self.board@));
                        rows_t = rows_t.push(row as int);
                        gs_t = gs_t.push(self.board@);
                        assert(spec_clear_trace(rows_t, gs_t)) by {
                            assert forall|i: int|
                                0 <= i < rows_t.len() implies #[trigger] spec_clear_step(
                                gs_t[i],
                                rows_t[i],
                                gs_t[i + 1],
                            ) by {}
                        }
                    }
                    if count < 255 {
                        count = count + 1;
                    }
                },
            }
        }
        let ghost m = rows_t.len() as int;
        self.add_score(ScoreAction::RowCleared(count));
        proof {
            assert(spec_row_points(count as int) == spec_row_points(m));
            assert(self.spec_score() == spec_score_after(
                old(self).spec_score(),
                spec_row_points(m),
            ));
        }
        count
    }
}

/// The grid with every entry of `row` removed.
pub open spec fn spec_delete_row(grid: Map<(int, int), Color>, row: int) -> Map<(int, int), Color> {
    Map::new(
        |p: (int, int)| grid.contains_key(p) && p.1 != row,
        |p: (int, int)| grid[p],
    )
}

/// The grid with columns 0..`c` of `row` removed.
spec fn spec_delete_prefix(grid: Map<(int, int), Color>, row: int, c: int) -> Map<
    (int, int),
    Color,
> {
    Map::new(
        |p: (int, int)| grid.contains_key(p) && !(p.1 == row && 0 <= p.0 < c),
        |p: (int, int)| grid[p],
    )
}

/// The grid after the collapse at `row`: every row of the range -2..=`row`
/// holds what the row above it held, everything else is untouched.
pub open spec fn spec_collapsed(grid: Map<(int, int), Color>, row: int) -> Map<(int, int), Color> {
    Map::new(
        |p: (int, int)|
            if -2 <= p.1 <= row {
                grid.contains_key((p.0, p.1 - 1))
            } else {
                grid.contains_key(p)
            },
        |p: (int, int)|
            if -2 <= p.1 <= row {
                grid[(p.0, p.1 - 1)]
            } else {
                grid[p]
            },
    )
}

/// The grid mid-collapse: rows strictly between `r` and `row` shifted,
/// everything else untouched.
spec fn spec_collapse_outer(grid: Map<(int, int), Color>, row: int, r: int) -> Map<
    (int, int),
    Color,
> {
    Map::new(
        |p: (int, int)|
            if r < p.1 <= row {
                grid.contains_key((p.0, p.1 - 1))
            } else {
                grid.contains_key(p)
            },
        |p: (int, int)|
            if r < p.1 <= row {
                grid[(p.0, p.1 - 1)]
            } else {
                grid[p]
            },
    )
}

/// How many of the columns 0..`c` of `row` are settled.
pub open spec fn spec_row_count(grid: Map<(int, int), Color>, row: int, c: int) -> int
    decreases c,
{
    if c <= 0 {
        0
    } else {
        spec_row_count(grid, row, c - 1) + (if grid.contains_key((c - 1, row)) {
            1int
        } else {
            0int
        })
    }
}

proof fn lemma_row_count_bounds(grid: Map<(int, int), Color>, row: int, c: int)
    ensures
        0 <= spec_row_count(grid, row, c),
        c >= 0 ==> spec_row_count(grid, row, c) <= c,
    decreases c,
{
    if c > 0 {
        lemma_row_count_bounds(grid, row, c - 1);
    }
}

/// A row with one open column holds fewer than `c` cells.
proof fn lemma_row_count_missing(grid: Map<(int, int), Color>, row: int, c0: int, c: int)
    requires
        0 <= c0 < c,
        !grid.contains_key((c0, row)),
    ensures
        spec_row_count(grid, row, c) <= c - 1,
    decreases c,
{
    if c - 1 == c0 {
        lemma_row_count_bounds(grid, row, c - 1);
    } else {
        lemma_row_count_missing(grid, row, c0, c - 1);
    }
}

proof fn lemma_row_count_zero(grid: Map<(int, int), Color>, row: int, c: int)
    requires
        forall|cc: int| 0 <= cc < c ==> !grid.contains_key((cc, row)),
    ensures
        spec_row_count(grid, row, c) == 0,
    decreases c,
{
    if c > 0 {
        lemma_row_count_zero(grid, row, c - 1);
    }
}

/// One cycle of the line-clear sweep: `row` is the bottom-most full visible
/// row of `g`, and `g2` is `g` with that row deleted and the rows above
/// collapsed down.
pub open spec fn spec_clear_step(
    g: Map<(int, int), Color>,
    row: int,
    g2: Map<(int, int), Color>,
) -> bool {
    &&& 0 <= row <= 19
    &&& spec_row_full(g, row)
    &&& (forall|r2: int| row < r2 <= 19 ==> !spec_row_full(g, r2))
    &&& g2 == spec_collapsed(spec_delete_row(g, row), row)
}

/// A run of line-clear cycles: `gs` are the grids before each cycle and
/// after the last, `rows` the rows cleared.
pub open spec fn spec_clear_trace(rows: Seq<int>, gs: Seq<Map<(int, int), Color>>) -> bool {
    &&& gs.len() == rows.len() + 1
    &&& (forall|i: int| 0 <= i < rows.len() ==> #[trigger] spec_clear_step(gs[i], rows[i], gs[i + 1]))
}

/// Law: on a grid whose only full visible row is `r`, the bottom-up scan
/// can only name `r`; deleting empties that row; and the collapse hands
/// every shifted row the previous content of the row above it, freeing the
/// topmost shifted row when the buffer row above it was empty.
pub proof fn lemma_line_clear(g: Map<(int, int), Color>, r: int)
    requires
        0 <= r <= 19,
        spec_row_full(g, r),
        forall|r2: int| 0 <= r2 <= 19 && r2 != r ==> !spec_row_full(g, r2),
    ensures
        forall|r3: int| r < r3 <= 19 ==> !spec_row_full(g, r3),
        forall|r2: int|
            0 <= r2 <= 19 && spec_row_full(g, r2) && (forall|r3: int|
                r2 < r3 <= 19 ==> !spec_row_full(g, r3)) ==> r2 == r,
        forall|c: int| !spec_delete_row(g, r).contains_key((c, r)),
        forall|c: int, q: int|
            -2 <= q <= r ==> #[trigger] spec_collapsed(spec_delete_row(g, r), r).contains_key(
                (c, q),
            ) == spec_delete_row(g, r).contains_key((c, q - 1)),
        (forall|c: int| !#[trigger] g.contains_key((c, -3))) ==> (forall|c: int|
            !#[trigger] spec_collapsed(spec_delete_row(g, r), r).contains_key((c, -2))),
{
    assert forall|r2: int|
        0 <= r2 <= 19 && spec_row_full(g, r2) && (forall|r3: int|
            r2 < r3 <= 19 ==> !spec_row_full(g, r3)) implies r2 == r by {
        if r2 != r {
            assert(!spec_row_full(g, r2));
        }
    }
    if forall|c: int| !#[trigger] g.contains_key((c, -3)) {
        assert forall|c: int|
            !#[trigger] spec_collapsed(spec_delete_row(g, r), r).contains_key((c, -2)) by {
            assert(!g.contains_key((c, -3)));
            assert(!spec_delete_row(g, r).contains_key((c, -3)));
        }
    }
}

/// The grid mid-collapse within row `r`: columns 0..`c` of it shifted, rows
/// above `r` up to `row` shifted, everything else untouched.
spec fn spec_collapse_inner(grid: Map<(int, int), Color>, row: int, r: int, c: int) -> Map<
    (int, int),
    Color,
> {
    Map::new(
        |p: (int, int)|
            if r < p.1 <= row || (p.1 == r && 0 <= p.0 < c) {
                grid.contains_key((p.0, p.1 - 1))
            } else {
                grid.contains_key(p)
            },
        |p: (int, int)|
            if r < p.1 <= row || (p.1 == r && 0 <= p.0 < c) {
                grid[(p.0, p.1 - 1)]
            } else {
                grid[p]
            },
    )
}

} // verus!
