//! Application settings: the key bindings for each game command, their
//! defaults and their validation. Reading the settings file from disk is
//! left to the surrounding program, which hands the decoded values in.

use vstd::prelude::*;

pub mod keys;

use crate::flags::ParseError;
use keys::Key;

verus! {

/// Custom key-bindings that allow the user to change the keys bound for
/// each game input.
#[derive(Debug, PartialEq)]
pub struct KeyBindings {
    pub move_left: Vec<Key>,
    pub move_right: Vec<Key>,
    pub move_down: Vec<Key>,
    pub rotate_cw: Vec<Key>,
    pub rotate_ccw: Vec<Key>,
    pub drop: Vec<Key>,
    pub pause: Vec<Key>,
}

/// Global application settings.
pub struct Settings {
    pub key_bindings: KeyBindings,
}

/// Whether `kb` holds exactly the default bindings.
pub open spec fn spec_is_default_bindings(kb: KeyBindings) -> bool {
    &&& kb.move_left@ == seq![Key::Left]
    &&& kb.move_right@ == seq![Key::Right]
    &&& kb.move_down@ == seq![Key::Down]
    &&& kb.rotate_cw@ == seq![Key::Char(' '), Key::Char('x'), Key::Up]
    &&& kb.rotate_ccw@ == seq![Key::Char('z')]
    &&& kb.drop@ == seq![Key::Char('\n')]
    &&& kb.pause@ == seq![Key::Esc]
}

/// All bound keys, every command's list in order.
pub open spec fn spec_all_keys(kb: KeyBindings) -> Seq<Key> {
    kb.move_left@ + kb.move_right@ + kb.move_down@ + kb.rotate_cw@ + kb.rotate_ccw@ + kb.drop@
        + kb.pause@
}

fn one_key(k: Key) -> (v: Vec<Key>)
    ensures
        v@ == seq![k],
{
    let mut v: Vec<Key> = Vec::new();
    v.push(k);
    proof {
        assert(v@ =~= seq![k]);
    }
    v
}

fn append_keys(dst: &mut Vec<Key>, src: &Vec<Key>)
    ensures
        final(dst)@ == old(dst)@ + src@,
{
    let n = src.len();
    let mut i: usize = 0;
    while i < n
        invariant
            i <= n,
            n == src@.len(),
            dst@ == old(dst)@ + src@.take(i as int),
        decreases n - i,
    {
        dst.push(src[i]);
        proof {
            assert(old(dst)@ + src@.take(i + 1) =~= (old(dst)@ + src@.take(i as int)).push(
                src@[i as int],
            ));
        }
        i = i + 1;
    }
    proof {
        assert(src@.take(n as int) =~= src@);
    }
}

impl Default for KeyBindings {
    /// The stock bindings: arrows to move, space/`x`/up and `z` to rotate,
    /// return to drop, escape to pause.
    fn default() -> (kb: KeyBindings)
        ensures
            spec_is_default_bindings(kb),
    {
        let mut rotate_cw: Vec<Key> = Vec::new();
        rotate_cw.push(Key::Char(' '));
        rotate_cw.push(Key::Char('x'));
        rotate_cw.push(Key::Up);
        proof {
            assert(rotate_cw@ =~= seq![Key::Char(' '), Key::Char('x'), Key::Up]);
        }
        KeyBindings {
            move_left: one_key(Key::Left),
            move_right: one_key(Key::Right),
            move_down: one_key(Key::Down),
            rotate_cw,
            rotate_ccw: one_key(Key::Char('z')),
            drop: one_key(Key::Char('\n')),
            pause: one_key(Key::Esc),
        }
    }
}

impl KeyBindings {
    /// Fill every binding that is still empty with its default keys, so a
    /// partial settings file falls back to the stock bindings command by
    /// command.
    pub fn fill_empty(&mut self)
        ensures
            final(self).move_left@ == if old(self).move_left@.len() == 0 {
                seq![Key::Left]
            } else {
                old(self).move_left@
            },
            final(self).move_right@ == if old(self).move_right@.len() == 0 {
                seq![Key::Right]
            } else {
                old(self).move_right@
            },
            final(self).move_down@ == if old(self).move_down@.len() == 0 {
                seq![Key::Down]
            } else {
                old(self).move_down@
            },
            final(self).rotate_cw@ == if old(self).rotate_cw@.len() == 0 {
                seq![Key::Char(' '), Key::Char('x'), Key::Up]
            } else {
                old(self).rotate_cw@
            },
            final(self).rotate_ccw@ == if old(self).rotate_ccw@.len() == 0 {
                seq![Key::Char('z')]
            } else {
                old(self).rotate_ccw@
            },
            final(self).drop@ == if old(self).drop@.len() == 0 {
                seq![Key::Char('\n')]
            } else {
                old(self).drop@
            },
            final(self).pause@ == if old(self).pause@.len() == 0 {
                seq![Key::Esc]
            } else {
                old(self).pause@
            },
    {
        let default = KeyBindings::default();
        if self.move_left.len() == 0 {
            self.move_left = default.move_left;
        }
        if self.move_right.len() == 0 {
            self.move_right = default.move_right;
        }
        if self.move_down.len() == 0 {
            self.move_down = default.move_down;
        }
        if self.rotate_cw.len() == 0 {
            self.rotate_cw = default.rotate_cw;
        }
        if self.rotate_ccw.len() == 0 {
            self.rotate_ccw = default.rotate_ccw;
        }
        if self.drop.len() == 0 {
            self.drop = default.drop;
        }
        if self.pause.len() == 0 {
            self.pause = default.pause;
        }
    }

    /// Check that every key is bound only once and that the reserved exit
    /// keys `q` and `C-c` are not re-bound; duplicates are reported first.
    pub fn validate(&self) -> (r: Result<(), ParseError>)
        ensures
            r is Ok <==> spec_all_keys(*self).no_duplicates() && !spec_all_keys(*self).contains(
                Key::Char('q'),
            ) && !spec_all_keys(*self).contains(Key::Ctrl('c')),
            r matches Err(e) ==> e@ == (if !spec_all_keys(*self).no_duplicates() {
                "key bindings contain duplicate keys"@
            } else {
                "exit keys `q` and `C-c` can't be changed"@
            }),
    {
        let mut all: Vec<Key> = Vec::new();
        append_keys(&mut all, &self.move_left);
        append_keys(&mut all, &self.move_right);
        append_keys(&mut all, &self.move_down);
        append_keys(&mut all, &self.rotate_cw);
        append_keys(&mut all, &self.rotate_ccw);
        append_keys(&mut all, &self.drop);
        append_keys(&mut all, &self.pause);
        proof {
            assert(all@ =~= spec_all_keys(*self));
        }
        let n = all.len();
        let mut i: usize = 0;
        while i < n
            invariant
                i <= n,
                n == all@.len(),
                all@ == spec_all_keys(*self),
                forall|a: int, b: int| 0 <= a < b < n && a < i ==> all@[a] != all@[b],
            decreases n - i,
        {
            let mut j = i + 1;
            while j < n
                invariant
                    i < j <= n,
                    n == all@.len(),
                    all@ == spec_all_keys(*self),
                    forall|b: int| i < b < j ==> all@[i as int] != all@[b],
                decreases n - j,
            {
                if all[i] == all[j] {
                    return Err(ParseError::new("key bindings contain duplicate keys"));
                }
                j = j + 1;
            }
            i = i + 1;
        }
        let mut k: usize = 0;
        while k < n
            invariant
                k <= n,
                n == all@.len(),
                all@ == spec_all_keys(*self),
                spec_all_keys(*self).no_duplicates(),
                forall|b: int|
                    0 <= b < k ==> all@[b] != Key::Char('q') && all@[b] != Key::Ctrl('c'),
            decreases n - k,
        {
            let key = all[k];
            if key == Key::Char('q') || key == Key::Ctrl('c') {
                return Err(ParseError::new("exit keys `q` and `C-c` can't be changed"));
            }
            k = k + 1;
        }
        Ok(())
    }
}

impl Default for Settings {
    /// Settings with the stock key bindings.
    fn default() -> (s: Settings)
        ensures
            spec_is_default_bindings(s.key_bindings),
    {
        Settings { key_bindings: KeyBindings::default() }
    }
}

} // verus!
