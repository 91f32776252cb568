//! The keyboard-key vocabulary of the key bindings, and the decoding of a
//! key from its text form in the settings file.

use vstd::prelude::*;

use crate::flags::{spec_digits_value, spec_is_digit, spec_numeral_body, ParseError};

verus! {

/// A keyboard key as the key bindings name it. This is the engine's own
/// vocabulary; the surrounding program maps it to whatever its terminal
/// library reports.
#[derive(Copy, Clone, Debug, PartialEq, Eq, Structural)]
pub enum Key {
    Backspace,
    Left,
    Right,
    Up,
    Down,
    Home,
    End,
    PageUp,
    PageDown,
    BackTab,
    Delete,
    Insert,
    F(u8),
    Char(char),
    Alt(char),
    Ctrl(char),
    Null,
    Esc,
}

/// Whether `c` fits in one byte of text, as a key name's suffix must.
pub open spec fn spec_is_ascii_char(c: char) -> bool {
    (c as int) < 128
}

/// What stripping `prefix` from `v` leaves when exactly one one-byte
/// character remains.
pub open spec fn spec_strip_char(v: Seq<char>, prefix: Seq<char>) -> Option<char> {
    if v.len() == prefix.len() + 1 && v.take(prefix.len() as int) == prefix && spec_is_ascii_char(
        v.last(),
    ) {
        Some(v.last())
    } else {
        None
    }
}

/// Whether `s` denotes a `u8`: an optional leading plus sign, then at
/// least one decimal digit, with the denoted value in range.
pub open spec fn spec_is_u8_numeral(s: Seq<char>) -> bool {
    &&& spec_numeral_body(s).len() > 0
    &&& (forall|i: int|
        0 <= i < spec_numeral_body(s).len() ==> spec_is_digit(#[trigger] spec_numeral_body(s)[i]))
    &&& spec_digits_value(spec_numeral_body(s)) <= 255
}

/// The key denoted by its text form in the settings file: one of the named
/// keys, an `A-`/`C-` chord, an `F` key with its number, or a single
/// one-byte character; anything else denotes no key.
pub open spec fn spec_parse_key(s: Seq<char>) -> Option<Key> {
    if s == "Backspace"@ {
        Some(Key::Backspace)
    } else if s == "Left"@ {
        Some(Key::Left)
    } else if s == "Right"@ {
        Some(Key::Right)
    } else if s == "Up"@ {
        Some(Key::Up)
    } else if s == "Down"@ {
        Some(Key::Down)
    } else if s == "Home"@ {
        Some(Key::Home)
    } else if s == "End"@ {
        Some(Key::End)
    } else if s == "PageUp"@ {
        Some(Key::PageUp)
    } else if s == "PageDown"@ {
        Some(Key::PageDown)
    } else if s == "BackTab"@ {
        Some(Key::BackTab)
    } else if s == "Delete"@ {
        Some(Key::Delete)
    } else if s == "Insert"@ {
        Some(Key::Insert)
    } else if s == "Esc"@ {
        Some(Key::Esc)
    } else if spec_strip_char(s, "A-"@) is Some {
        Some(Key::Alt(spec_strip_char(s, "A-"@)->Some_0))
    } else if spec_strip_char(s, "C-"@) is Some {
        Some(Key::Ctrl(spec_strip_char(s, "C-"@)->Some_0))
    } else if s.len() >= 1 && s[0] == 'F' && spec_is_u8_numeral(s.skip(1)) {
        Some(Key::F(spec_digits_value(spec_numeral_body(s.skip(1))) as u8))
    } else if s.len() == 1 && spec_is_ascii_char(s[0]) {
        Some(Key::Char(s[0]))
    } else {
        None
    }
}

/// Whether two pieces of text read the same.
fn str_eq(a: &str, b: &str) -> (r: bool)
    ensures
        r == (a@ == b@),
{
    let n = a.unicode_len();
    if n != b.unicode_len() {
        return false;
    }
    let mut i: usize = 0;
    while i < n
        invariant
            i <= n,
            n == a@.len(),
            n == b@.len(),
            forall|j: int| 0 <= j < i ==> a@[j] == b@[j],
        decreases n - i,
    {
        if a.get_char(i) != b.get_char(i) {
            return false;
        }
        i = i + 1;
    }
    proof {
        assert(a@ =~= b@);
    }
    true
}

/// Strip a prefix from the given value and return the remainder if only a
/// single one-byte character remains.
fn strip_char(value: &str, prefix: &str) -> (r: Option<char>)
    ensures
        r == spec_strip_char(value@, prefix@),
{
    let np = prefix.unicode_len();
    let nv = value.unicode_len();
    if nv == 0 || nv - 1 != np {
        return None;
    }
    let mut i: usize = 0;
    while i < np
        invariant
            i <= np,
            np == prefix@.len(),
            nv == value@.len(),
            nv == np + 1,
            forall|j: int| 0 <= j < i ==> value@[j] == prefix@[j],
        decreases np - i,
    {
        if value.get_char(i) != prefix.get_char(i) {
            proof {
                assert(value@.take(np as int)[i as int] != prefix@[i as int]);
            }
            return None;
        }
        i = i + 1;
    }
    let last = value.get_char(np);
    if (last as u32) < 128 {
        proof {
            assert(value@.take(np as int) =~= prefix@);
        }
        Some(last)
    } else {
        None
    }
}

/// Decode a decimal numeral denoting a `u8`: an optional leading `+`, then
/// one or more digits with the value in range.
fn parse_u8(s: &str) -> (r: Option<u8>)
    ensures
        r is Some <==> spec_is_u8_numeral(s@),
        r matches Some(v) ==> v == spec_digits_value(spec_numeral_body(s@)),
{
    let n = s.unicode_len();
    let mut i: usize = 0;
    if n > 0 && s.get_char(0) == '+' {
        i = 1;
    }
    let ghost body = spec_numeral_body(s@);
    assert(body =~= s@.skip(i as int));
    if i == n {
        return None;
    }
    let mut acc: u8 = 0;
    let start = i;
    while i < n
        invariant
            start <= i <= n,
            n == s@.len(),
            start <= 1,
            body == spec_numeral_body(s@),
            body == s@.skip(start as int),
            forall|k: int| 0 <= k < i - start ==> spec_is_digit(#[trigger] body[k]),
            acc == spec_digits_value(body.take(i - start)),
        decreases n - i,
    {
        let c = s.get_char(i);
        let cv = c as u32;
        if cv < 48 || cv > 57 {
            proof {
                assert(body[i - start] == s@[i as int]);
                assert(!spec_is_digit(spec_numeral_body(s@)[i - start]));
            }
            return None;
        }
        let d = (cv - 48) as u8;
        if acc > (255 - d) / 10 {
            proof {
                if spec_is_u8_numeral(s@) {
                    assert(body == spec_numeral_body(s@));
                    assert(forall|k: int|
                        0 <= k < body.len() ==> spec_is_digit(#[trigger] body[k]));
                    crate::flags::lemma_digits_value_monotone(body, i + 1 - start, body.len() as int);
                    assert(body.take(i + 1 - start).drop_last() =~= body.take(i - start));
                    assert(spec_digits_value(body.take(i + 1 - start)) > 255);
                    assert(body.take(body.len() as int) =~= body);
                }
            }
            return None;
        }
        proof {
            assert(body.take(i + 1 - start).drop_last() =~= body.take(i - start));
        }
        acc = acc * 10 + d;
        i = i + 1;
    }
    proof {
        assert(body.take(n - start) =~= body);
    }
    Some(acc)
}

/// Decode a key from its text form in the settings file. Accepted are the
/// named keys, `A-x` and `C-x` chords on a one-byte character, `F` followed
/// by a number, and any single one-byte character; everything else is
/// rejected.
pub fn parse_key(s: &str) -> (r: Result<Key, ParseError>)
    ensures
        r matches Ok(k) ==> spec_parse_key(s@) == Some(k),
        r is Err <==> spec_parse_key(s@) is None,
        r matches Err(e) ==> e@ == "invalid key binding"@,
{
    if str_eq(s, "Backspace") {
        return Ok(Key::Backspace);
    }
    if str_eq(s, "Left") {
        return Ok(Key::Left);
    }
    if str_eq(s, "Right") {
        return Ok(Key::Right);
    }
    if str_eq(s, "Up") {
        return Ok(Key::Up);
    }
    if str_eq(s, "Down") {
        return Ok(Key::Down);
    }
    if str_eq(s, "Home") {
        return Ok(Key::Home);
    }
    if str_eq(s, "End") {
        return Ok(Key::End);
    }
    if str_eq(s, "PageUp") {
        return Ok(Key::PageUp);
    }
    if str_eq(s, "PageDown") {
        return Ok(Key::PageDown);
    }
    if str_eq(s, "BackTab") {
        return Ok(Key::BackTab);
    }
    if str_eq(s, "Delete") {
        return Ok(Key::Delete);
    }
    if str_eq(s, "Insert") {
        return Ok(Key::Insert);
    }
    if str_eq(s, "Esc") {
        return Ok(Key::Esc);
    }
    if let Some(c) = strip_char(s, "A-") {
        return Ok(Key::Alt(c));
    }
    if let Some(c) = strip_char(s, "C-") {
        return Ok(Key::Ctrl(c));
    }
    let n = s.unicode_len();
    if n >= 1 && s.get_char(0) == 'F' {
        let rest = s.substring_char(1, n);
        if let Some(v) = parse_u8(rest) {
            return Ok(Key::F(v));
        }
    }
    if n == 1 {
        let c = s.get_char(0);
        if (c as u32) < 128 {
            return Ok(Key::Char(c));
        }
    }
    Err(ParseError::new("invalid key binding"))
}

} // verus!
