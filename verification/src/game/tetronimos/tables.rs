//! The static piece data: each kind's spawn layout and color, and the
//! rotation kick-offset tables, keyed by kind family and rotation transition.

use vstd::prelude::*;

use crate::game::tetronimos::{Color, Pixel, Type};

verus! {

/// The color each piece kind is drawn in.
pub open spec fn spec_type_color(t: Type) -> Color {
    match t {
        Type::I => Color::Cyan,
        Type::L => Color::Yellow,
        Type::T => Color::Magenta,
        Type::S => Color::Green,
        Type::O => Color::LightYellow,
        Type::J => Color::LightBlue,
        Type::Z => Color::Red,
    }
}

/// The four spawn cells of a kind, near the top centre of the 10-wide board,
/// in the fixed order the engine keeps: the first cell is the rotation pivot.
pub open spec fn spec_initial_cells(t: Type) -> Seq<Pixel> {
    let c = spec_type_color(t);
    match t {
        Type::I => seq![
            Pixel { x: 4, y: -1i8, c },
            Pixel { x: 3, y: -1i8, c },
            Pixel { x: 5, y: -1i8, c },
            Pixel { x: 6, y: -1i8, c },
        ],
        Type::L => seq![
            Pixel { x: 4, y: -1i8, c },
            Pixel { x: 3, y: -1i8, c },
            Pixel { x: 5, y: -1i8, c },
            Pixel { x: 5, y: -2i8, c },
        ],
        Type::T => seq![
            Pixel { x: 4, y: -1i8, c },
            Pixel { x: 4, y: -2i8, c },
            Pixel { x: 3, y: -1i8, c },
            Pixel { x: 5, y: -1i8, c },
        ],
        Type::S => seq![
            Pixel { x: 4, y: -1i8, c },
            Pixel { x: 3, y: -1i8, c },
            Pixel { x: 4, y: -2i8, c },
            Pixel { x: 5, y: -2i8, c },
        ],
        Type::O => seq![
            Pixel { x: 4, y: -1i8, c },
            Pixel { x: 4, y: -2i8, c },
            Pixel { x: 5, y: -2i8, c },
            Pixel { x: 5, y: -1i8, c },
        ],
        Type::J => seq![
            Pixel { x: 4, y: -1i8, c },
            Pixel { x: 3, y: -1i8, c },
            Pixel { x: 3, y: -2i8, c },
            Pixel { x: 5, y: -1i8, c },
        ],
        Type::Z => seq![
            Pixel { x: 4, y: -1i8, c },
            Pixel { x: 3, y: -2i8, c },
            Pixel { x: 4, y: -2i8, c },
            Pixel { x: 5, y: -1i8, c },
        ],
    }
}

fn four(a: Pixel, b: Pixel, c: Pixel, d: Pixel) -> (v: Vec<Pixel>)
    ensures
        v@ == seq![a, b, c, d],
{
    let mut v: Vec<Pixel> = Vec::new();
    v.push(a);
    v.push(b);
    v.push(c);
    v.push(d);
    proof {
        assert(v@ =~= seq![a, b, c, d]);
    }
    v
}

/// Build a kind's four spawn cells.
pub fn fill_new_pixels(t: Type) -> (ps: Vec<Pixel>)
    ensures
        ps@ == spec_initial_cells(t),
{
    match t {
        Type::I => {
            let c = Color::Cyan;
            four(
                Pixel { x: 4, y: -1i8, c },
                Pixel { x: 3, y: -1i8, c },
                Pixel { x: 5, y: -1i8, c },
                Pixel { x: 6, y: -1i8, c },
            )
        },
        Type::L => {
            let c = Color::Yellow;
            four(
                Pixel { x: 4, y: -1i8, c },
                Pixel { x: 3, y: -1i8, c },
                Pixel { x: 5, y: -1i8, c },
                Pixel { x: 5, y: -2i8, c },
            )
        },
        Type::T => {
            let c = Color::Magenta;
            four(
                Pixel { x: 4, y: -1i8, c },
                Pixel { x: 4, y: -2i8, c },
                Pixel { x: 3, y: -1i8, c },
                Pixel { x: 5, y: -1i8, c },
            )
        },
        Type::S => {
            let c = Color::Green;
            four(
                Pixel { x: 4, y: -1i8, c },
                Pixel { x: 3, y: -1i8, c },
                Pixel { x: 4, y: -2i8, c },
                Pixel { x: 5, y: -2i8, c },
            )
        },
        Type::O => {
            let c = Color::LightYellow;
            four(
                Pixel { x: 4, y: -1i8, c },
                Pixel { x: 4, y: -2i8, c },
                Pixel { x: 5, y: -2i8, c },
                Pixel { x: 5, y: -1i8, c },
            )
        },
        Type::J => {
            let c = Color::LightBlue;
            four(
                Pixel { x: 4, y: -1i8, c },
                Pixel { x: 3, y: -1i8, c },
                Pixel { x: 3, y: -2i8, c },
                Pixel { x: 5, y: -1i8, c },
            )
        },
        Type::Z => {
            let c = Color::Red;
            four(
                Pixel { x: 4, y: -1i8, c },
                Pixel { x: 3, y: -2i8, c },
                Pixel { x: 4, y: -2i8, c },
                Pixel { x: 5, y: -1i8, c },
            )
        },
    }
}

/// How many kick candidates a kind's family tries per rotation: the square
/// piece has one, every other kind five.
pub open spec fn spec_kick_count(t: Type) -> int {
    match t {
        Type::O => 1,
        _ => 5,
    }
}

/// The per-rotation base offset of a kind's family at a candidate index.
/// Kick candidates are built by differencing two rows of this table.
pub open spec fn spec_base_offset(t: Type, rot: int, idx: int) -> (int, int) {
    match t {
        Type::O => {
            if rot == 0 {
                (0, 0)
            } else if rot == 1 {
                (0, -1)
            } else if rot == 2 {
                (-1, -1)
            } else {
                (-1, 0)
            }
        },
        Type::I => {
            if rot == 0 {
                if idx == 0 {
                    (0, 0)
                } else if idx == 1 {
                    (-1, 0)
                } else if idx == 2 {
                    (2, 0)
                } else if idx == 3 {
                    (-1, 0)
                } else {
                    (2, 0)
                }
            } else if rot == 1 {
                if idx == 0 {
                    (-1, 0)
                } else if idx == 1 {
                    (0, 0)
                } else if idx == 2 {
                    (0, 0)
                } else if idx == 3 {
                    (0, 1)
                } else {
                    (0, -2)
                }
            } else if rot == 2 {
                if idx == 0 {
                    (-1, 1)
                } else if idx == 1 {
                    (1, 1)
                } else if idx == 2 {
                    (-2, 1)
                } else if idx == 3 {
                    (1, 0)
                } else {
                    (-2, 0)
                }
            } else {
                if idx == 0 {
                    (0, 1)
                } else if idx == 1 {
                    (0, 1)
                } else if idx == 2 {
                    (0, 1)
                } else if idx == 3 {
                    (0, -1)
                } else {
                    (0, 2)
                }
            }
        },
        _ => {
            if rot == 1 {
                if idx == 0 {
                    (0, 0)
                } else if idx == 1 {
                    (1, 0)
                } else if idx == 2 {
                    (1, -1)
                } else if idx == 3 {
                    (0, 2)
                } else {
                    (1, 2)
                }
            } else if rot == 3 {
                if idx == 0 {
                    (0, 0)
                } else if idx == 1 {
                    (-1, 0)
                } else if idx == 2 {
                    (-1, -1)
                } else if idx == 3 {
                    (0, 2)
                } else {
                    (-1, 2)
                }
            } else {
                (0, 0)
            }
        },
    }
}

/// The ordered kick candidates for a rotation from `from` to `to` of kind
/// `t`, most preferred first: the difference of the two base-offset rows.
pub open spec fn spec_kick_offsets(from: int, to: int, t: Type) -> Seq<(int, int)> {
    Seq::new(
        spec_kick_count(t) as nat,
        |i: int|
            (
                spec_base_offset(t, from, i).0 - spec_base_offset(t, to, i).0,
                spec_base_offset(t, from, i).1 - spec_base_offset(t, to, i).1,
            ),
    )
}

fn kick_base(t: Type, rot: i8, idx: usize) -> (o: (i8, i8))
    requires
        0 <= rot < 4,
        idx < spec_kick_count(t),
    ensures
        o.0 as int == spec_base_offset(t, rot as int, idx as int).0,
        o.1 as int == spec_base_offset(t, rot as int, idx as int).1,
        -2 <= o.0 <= 2,
        -2 <= o.1 <= 2,
{
    match t {
        Type::O => {
            match rot {
                0 => (0, 0),
                1 => (0, -1),
                2 => (-1, -1),
                _ => (-1, 0),
            }
        },
        Type::I => {
            match rot {
                0 => {
                    match idx {
                        0 => (0, 0),
                        1 => (-1, 0),
                        2 => (2, 0),
                        3 => (-1, 0),
                        _ => (2, 0),
                    }
                },
                1 => {
                    match idx {
                        0 => (-1, 0),
                        1 => (0, 0),
                        2 => (0, 0),
                        3 => (0, 1),
                        _ => (0, -2),
                    }
                },
                2 => {
                    match idx {
                        0 => (-1, 1),
                        1 => (1, 1),
                        2 => (-2, 1),
                        3 => (1, 0),
                        _ => (-2, 0),
                    }
                },
                _ => {
                    match idx {
                        0 => (0, 1),
                        1 => (0, 1),
                        2 => (0, 1),
                        3 => (0, -1),
                        _ => (0, 2),
                    }
                },
            }
        },
        _ => {
            match rot {
                1 => {
                    match idx {
                        0 => (0, 0),
                        1 => (1, 0),
                        2 => (1, -1),
                        3 => (0, 2),
                        _ => (1, 2),
                    }
                },
                3 => {
                    match idx {
                        0 => (0, 0),
                        1 => (-1, 0),
                        2 => (-1, -1),
                        3 => (0, 2),
                        _ => (-1, 2),
                    }
                },
                _ => (0, 0),
            }
        },
    }
}

/// The ordered kick candidates tried when a piece of kind `t` rotates from
/// rotation index `from` to `to`.
pub fn get_kick_offsets(from: i8, to: i8, t: Type) -> (v: Vec<(i8, i8)>)
    requires
        0 <= from < 4,
        0 <= to < 4,
    ensures
        v@.len() == spec_kick_count(t),
        forall|i: int|
            0 <= i < v@.len() ==> #[trigger] v@[i].0 as int == spec_kick_offsets(
                from as int,
                to as int,
                t,
            )[i].0 && v@[i].1 as int == spec_kick_offsets(from as int, to as int, t)[i].1,
        forall|i: int| 0 <= i < v@.len() ==> -4 <= #[trigger] v@[i].0 <= 4 && -4 <= v@[i].1 <= 4,
{
    let count: usize = match t {
        Type::O => 1,
        _ => 5,
    };
    let mut v: Vec<(i8, i8)> = Vec::new();
    let mut i: usize = 0;
    while i < count
        invariant
            0 <= from < 4,
            0 <= to < 4,
            i <= count,
            count == spec_kick_count(t),
            v@.len() == i,
            forall|j: int|
                0 <= j < i ==> #[trigger] v@[j].0 as int == spec_kick_offsets(
                    from as int,
                    to as int,
                    t,
                )[j].0 && v@[j].1 as int == spec_kick_offsets(from as int, to as int, t)[j].1,
            forall|j: int| 0 <= j < i ==> -4 <= #[trigger] v@[j].0 <= 4 && -4 <= v@[j].1 <= 4,
        decreases count - i,
    {
        let f = kick_base(t, from, i);
        let o = kick_base(t, to, i);
        v.push((f.0 - o.0, f.1 - o.1));
        i = i + 1;
    }
    v
}

} // verus!
