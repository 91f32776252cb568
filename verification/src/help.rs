//! The in-game help text: one line per command, naming its bound keys.

use vstd::prelude::*;

use crate::settings::keys::Key;
use crate::settings::KeyBindings;

verus! {

/// Help message for display in the UI, one line per entry.
pub struct Help {
    lines: Vec<String>,
}

impl View for Help {
    type V = Seq<Seq<char>>;

    closed spec fn view(&self) -> Seq<Seq<char>> {
        self.lines@.map_values(|l: String| l@)
    }
}

/// The decimal digit character for `d`.
pub open spec fn spec_digit_char(d: int) -> char {
    ((48 + d) as u8) as char
}

/// The decimal numeral for `n`, most significant digit first.
pub open spec fn spec_u8_decimal(n: int) -> Seq<char>
    decreases n,
{
    if n < 10 {
        seq![spec_digit_char(n)]
    } else {
        spec_u8_decimal(n / 10) + seq![spec_digit_char(n % 10)]
    }
}

/// The user-friendly text for one key: an arrow glyph, a short word, a
/// chord such as `A-x` or `C-x`, `F` with its number, the bare character,
/// or `?` for a key with no display form.
pub open spec fn spec_key_text(k: Key) -> Seq<char> {
    match k {
        Key::Left => seq!['\u{2190}'],
        Key::Right => seq!['\u{2192}'],
        Key::Up => seq!['\u{2191}'],
        Key::Down => seq!['\u{2193}'],
        Key::Null => seq!['\\', '0'],
        Key::Esc => seq!['e', 's', 'c'],
        Key::Char(c) => {
            if c == ' ' {
                seq!['s', 'p', 'a', 'c', 'e']
            } else if c == '\n' {
                seq!['r', 'e', 't']
            } else {
                seq![c]
            }
        },
        Key::F(i) => seq!['F'] + spec_u8_decimal(i as int),
        Key::Alt(c) => seq!['A', '-', c],
        Key::Ctrl(c) => seq!['C', '-', c],
        _ => seq!['?'],
    }
}

/// A list of keys as text: each key's text, separated by single spaces.
pub open spec fn spec_format_keys(keys: Seq<Key>) -> Seq<char>
    decreases keys.len(),
{
    if keys.len() == 0 {
        Seq::empty()
    } else if keys.len() == 1 {
        spec_key_text(keys[0])
    } else {
        spec_format_keys(keys.drop_last()) + seq![' '] + spec_key_text(keys.last())
    }
}

/// Relies on `String::push`: it appends exactly the one character.
#[verifier::external_body]
fn push_char(s: &mut String, c: char)
    ensures
        final(s)@ == old(s)@.push(c),
{
    s.push(c);
}

fn push_decimal(buf: &mut String, n: u8)
    ensures
        final(buf)@ == old(buf)@ + spec_u8_decimal(n as int),
{
    if n >= 100 {
        push_char(buf, (48 + n / 100) as char);
        push_char(buf, (48 + (n / 10) % 10) as char);
        push_char(buf, (48 + n % 10) as char);
        proof {
            assert(spec_u8_decimal(n as int) == spec_u8_decimal(n as int / 10) + seq![
                spec_digit_char(n as int % 10),
            ]);
            assert(spec_u8_decimal(n as int / 10) == spec_u8_decimal(n as int / 100) + seq![
                spec_digit_char((n as int / 10) % 10),
            ]);
            assert(n as int / 10 / 10 == n as int / 100);
            assert(spec_u8_decimal(n as int / 100) == seq![spec_digit_char(n as int / 100)]);
            assert(final(buf)@ =~= old(buf)@ + spec_u8_decimal(n as int));
        }
    } else if n >= 10 {
        push_char(buf, (48 + n / 10) as char);
        push_char(buf, (48 + n % 10) as char);
        proof {
            assert(spec_u8_decimal(n as int) == spec_u8_decimal(n as int / 10) + seq![
                spec_digit_char(n as int % 10),
            ]);
            assert(spec_u8_decimal(n as int / 10) == seq![spec_digit_char(n as int / 10)]);
            assert(final(buf)@ =~= old(buf)@ + spec_u8_decimal(n as int));
        }
    } else {
        push_char(buf, (48 + n) as char);
        proof {
            assert(final(buf)@ =~= old(buf)@ + spec_u8_decimal(n as int));
        }
    }
}

fn push_key_text(buf: &mut String, k: Key)
    ensures
        final(buf)@ == old(buf)@ + spec_key_text(k),
{
    match k {
        Key::Left => {
            push_char(buf, '\u{2190}');
        },
        Key::Right => {
            push_char(buf, '\u{2192}');
        },
        Key::Up => {
            push_char(buf, '\u{2191}');
        },
        Key::Down => {
            push_char(buf, '\u{2193}');
        },
        Key::Null => {
            push_char(buf, '\\');
            push_char(buf, '0');
        },
        Key::Esc => {
            push_char(buf, 'e');
            push_char(buf, 's');
            push_char(buf, 'c');
        },
        Key::Char(c) => {
            if c == ' ' {
                push_char(buf, 's');
                push_char(buf, 'p');
                push_char(buf, 'a');
                push_char(buf, 'c');
                push_char(buf, 'e');
            } else if c == '\n' {
                push_char(buf, 'r');
                push_char(buf, 'e');
                push_char(buf, 't');
            } else {
                push_char(buf, c);
            }
        },
        Key::F(i) => {
            push_char(buf, 'F');
            push_decimal(buf, i);
        },
        Key::Alt(c) => {
            push_char(buf, 'A');
            push_char(buf, '-');
            push_char(buf, c);
        },
        Key::Ctrl(c) => {
            push_char(buf, 'C');
            push_char(buf, '-');
            push_char(buf, c);
        },
        _ => {
            push_char(buf, '?');
        },
    }
    proof {
        assert(final(buf)@ =~= old(buf)@ + spec_key_text(k));
    }
}

/// Turn a list of keys into a more user-friendly text: each key's display
/// form, separated by spaces.
pub fn format_keys(keys: &Vec<Key>) -> (r: String)
    ensures
        r@ == spec_format_keys(keys@),
{
    let mut buf = String::new();
    let n = keys.len();
    let mut i: usize = 0;
    proof {
        assert(keys@.take(0) =~= Seq::<Key>::empty());
    }
    while i < n
        invariant
            i <= n,
            n == keys@.len(),
            buf@ == spec_format_keys(keys@.take(i as int)),
        decreases n - i,
    {
        if i > 0 {
            push_char(&mut buf, ' ');
        }
        push_key_text(&mut buf, keys[i]);
        proof {
            assert(keys@.take(i + 1).drop_last() =~= keys@.take(i as int));
            assert(keys@.take(i + 1).last() == keys@[i as int]);
            if i == 0 {
                assert(buf@ =~= spec_format_keys(keys@.take(1)));
            } else {
                assert(buf@ =~= spec_format_keys(keys@.take(i + 1)));
            }
        }
        i = i + 1;
    }
    proof {
        assert(keys@.take(n as int) =~= keys@);
    }
    buf
}

impl Help {
    /// Get the amount of lines in the help message.
    pub fn len(&self) -> (n: usize)
        ensures
            n == self@.len(),
    {
        self.lines.len()
    }

    /// Get the help message lines, for iteration in display order.
    pub fn iter(&self) -> (v: Vec<&str>)
        ensures
            v@.len() == self@.len(),
            forall|i: int| 0 <= i < v@.len() ==> (#[trigger] v@[i])@ == self@[i],
    {
        let mut v: Vec<&str> = Vec::new();
        let n = self.lines.len();
        let mut i: usize = 0;
        while i < n
            invariant
                i <= n,
                n == self.lines@.len(),
                v@.len() == i,
                forall|j: int| 0 <= j < i ==> (#[trigger] v@[j])@ == self@[j],
            decreases n - i,
        {
            v.push(self.lines[i].as_str());
            i = i + 1;
        }
        v
    }

    /// Get one line of the help message.
    pub fn line(&self, i: usize) -> (l: &str)
        requires
            i < self@.len(),
        ensures
            l@ == self@[i as int],
    {
        self.lines[i].as_str()
    }

    /// Build the help message for the given key bindings: a heading, one
    /// line naming each command's keys, and the fixed quit line.
    pub fn from_bindings(kb: &KeyBindings) -> (h: Help)
        ensures
            h@.len() == 9,
            h@[0] == "HELP:"@,
            h@[1] == "Move left: "@ + spec_format_keys(kb.move_left@),
            h@[2] == "Move right: "@ + spec_format_keys(kb.move_right@),
            h@[3] == "Move down: "@ + spec_format_keys(kb.move_down@),
            h@[4] == "Rotate clockwise: "@ + spec_format_keys(kb.rotate_cw@),
            h@[5] == "Rotate counter-clockwise: "@ + spec_format_keys(kb.rotate_ccw@),
            h@[6] == "Hard drop: "@ + spec_format_keys(kb.drop@),
            h@[7] == "Pause: "@ + spec_format_keys(kb.pause@),
            h@[8] == "Quit: q C-c"@,
    {
        let mut lines: Vec<String> = Vec::new();
        lines.push(String::from_str("HELP:"));
        let mut l = String::from_str("Move left: ");
        l.append(format_keys(&kb.move_left).as_str());
        lines.push(l);
        let mut l = String::from_str("Move right: ");
        l.append(format_keys(&kb.move_right).as_str());
        lines.push(l);
        let mut l = String::from_str("Move down: ");
        l.append(format_keys(&kb.move_down).as_str());
        lines.push(l);
        let mut l = String::from_str("Rotate clockwise: ");
        l.append(format_keys(&kb.rotate_cw).as_str());
        lines.push(l);
        let mut l = String::from_str("Rotate counter-clockwise: ");
        l.append(format_keys(&kb.rotate_ccw).as_str());
        lines.push(l);
        let mut l = String::from_str("Hard drop: ");
        l.append(format_keys(&kb.drop).as_str());
        lines.push(l);
        let mut l = String::from_str("Pause: ");
        l.append(format_keys(&kb.pause).as_str());
        lines.push(l);
        lines.push(String::from_str("Quit: q C-c"));
        let h = Help { lines };
        proof {
            assert(h@.len() == 9);
        }
        h
    }
}

} // verus!
