//! Keystroke dispatch (a table from trigger bytes to actions plus a default
//! action) and the bytes that the session writes to the local terminal.

use std::collections::HashMap;
use vstd::prelude::*;

verus! {

pub const ESC: u8 = 0x1b;

/// What one keystroke chunk decided: whether the session goes on, and the
/// bytes, if any, to forward downstream.
pub struct Reading {
    pub tbc: bool,
    pub output: Option<Vec<u8>>,
}

impl Reading {
    /// The session ends.
    pub fn finished(output: Option<Vec<u8>>) -> (r: Self)
        ensures
            !r.tbc,
            r.output == output,
    {
        Reading { tbc: false, output }
    }

    /// The session goes on ("to be continued").
    pub fn tbc(output: Option<Vec<u8>>) -> (r: Self)
        ensures
            r.tbc,
            r.output == output,
    {
        Reading { tbc: true, output }
    }
}

/// The actions that a key can trigger. The first five belong to the echo
/// state, the others to the command state.
#[derive(Clone, Copy, Debug, PartialEq, Eq, Structural)]
pub enum KeyAction {
    /// Flush the pending line downstream.
    SendOutput,
    /// Enter the command state.
    EnterCmd,
    /// Erase one byte of the pending line.
    OutBackspace,
    /// End the session.
    Terminate,
    /// Echo the bytes and append them to the pending line.
    OutElseKey,
    /// Complete and finalize the token.
    Space,
    /// Complete, finalize and end the session.
    Return,
    /// Shorten the token.
    Backspace,
    /// Leave the command state.
    QuitCmd,
    /// Extend the token.
    CmdElseKey,
}

/// A dispatch table: trigger byte to action.
pub type KeyBind = HashMap<u8, KeyAction>;

/// The bytes of a sequence of byte vectors.
pub open spec fn byte_views(v: Seq<Vec<u8>>) -> Seq<Seq<u8>> {
    v.map_values(|b: Vec<u8>| b@)
}

/// A session context that can hand out the tokens it collected.
pub trait DefaultVal {
    spec fn default_val(&self) -> Seq<Seq<u8>>;

    fn val(&self) -> (r: &Vec<Vec<u8>>)
        ensures
            byte_views(r@) == self.default_val(),
    ;
}

/// A keystroke reader: a context and the active state, which is a dispatch
/// table together with the action for bytes it does not list.
pub struct TermReader<T: DefaultVal> {
    pub ctx: T,
    pub key_map: KeyBind,
    pub elsekey: KeyAction,
}

impl<T: DefaultVal> TermReader<T> {
    pub fn new(ctx: T, keys: KeyBind, elsekey: KeyAction) -> (r: Self)
        ensures
            r.ctx == ctx,
            r.key_map@ == keys@,
            r.elsekey == elsekey,
    {
        TermReader { ctx, key_map: keys, elsekey }
    }

    /// Replaces the active state as a unit.
    pub fn set_mapping(&mut self, keys: KeyBind, elsekey: KeyAction)
        ensures
            final(self).ctx == old(self).ctx,
            final(self).key_map@ == keys@,
            final(self).elsekey == elsekey,
    {
        self.key_map = keys;
        self.elsekey = elsekey;
    }
}

/// The decimal digits of `n`, in ASCII.
pub open spec fn decimal(n: nat) -> Seq<u8>
    decreases n,
{
    if n < 10 {
        seq![(48 + n) as u8]
    } else {
        decimal(n / 10) + seq![(48 + n % 10) as u8]
    }
}

/// `ESC [ n <dir>`, the sequence that moves the cursor `n` columns (nothing
/// when `n` is zero).
pub open spec fn cursor_seq(n: nat, dir: u8) -> Seq<u8> {
    if n == 0 {
        seq![]
    } else {
        seq![ESC, 0x5b] + decimal(n) + seq![dir]
    }
}

/// Moves the cursor `n` columns right.
pub open spec fn right_seq(n: nat) -> Seq<u8> {
    cursor_seq(n, 0x43)
}

/// Moves the cursor `n` columns left.
pub open spec fn left_seq(n: nat) -> Seq<u8> {
    cursor_seq(n, 0x44)
}

/// `ESC [ K`: clears to the end of the line.
pub open spec fn clear_eol() -> Seq<u8> {
    seq![ESC, 0x5b, 0x4b]
}

/// Appends the decimal digits of `n`.
pub fn push_decimal(out: &mut Vec<u8>, n: u64)
    ensures
        final(out)@ == old(out)@ + decimal(n as nat),
    decreases n,
{
    if n >= 10 {
        push_decimal(out, n / 10);
    }
    let d: u8 = (n % 10) as u8;
    out.push(48 + d);
    proof {
        if n >= 10 {
            assert(final(out)@ =~= old(out)@ + decimal(n as nat));
        } else {
            assert(final(out)@ =~= old(out)@ + decimal(n as nat));
        }
    }
}

/// Appends the bytes `src[from..]` to `dst`.
pub fn push_from(dst: &mut Vec<u8>, src: &[u8], from: usize)
    requires
        from <= src@.len(),
    ensures
        final(dst)@ == old(dst)@ + src@.subrange(from as int, src@.len() as int),
{
    let mut i: usize = from;
    while i < src.len()
        invariant
            from <= i <= src@.len(),
            dst@ == old(dst)@ + src@.subrange(from as int, i as int),
        decreases src@.len() - i,
    {
        dst.push(src[i]);
        assert(src@.subrange(from as int, i + 1) =~= src@.subrange(from as int, i as int).push(
            src@[i as int],
        ));
        i = i + 1;
    }
}

/// The bytes the session has for the local terminal and not yet written:
/// echoed input, inline suggestions and cursor movements.
pub struct Term {
    pub shown: Vec<u8>,
}

impl Term {
    pub fn new() -> (r: Term)
        ensures
            r.shown@ == Seq::<u8>::empty(),
    {
        Term { shown: Vec::new() }
    }

    /// Shows `keys` as they are.
    pub fn echo(&mut self, keys: &[u8])
        ensures
            final(self).shown@ == old(self).shown@ + keys@,
    {
        push_from(&mut self.shown, keys, 0);
        assert(keys@.subrange(0, keys@.len() as int) =~= keys@);
    }

    /// Shows `keys[from..]`.
    pub fn echo_from(&mut self, keys: &[u8], from: usize)
        requires
            from <= keys@.len(),
        ensures
            final(self).shown@ == old(self).shown@ + keys@.subrange(from as int, keys@.len() as int),
    {
        push_from(&mut self.shown, keys, from);
    }

    /// Clears from the cursor to the end of the line.
    pub fn endline(&mut self)
        ensures
            final(self).shown@ == old(self).shown@ + clear_eol(),
    {
        self.shown.push(ESC);
        self.shown.push(0x5b);
        self.shown.push(0x4b);
        assert(self.shown@ =~= old(self).shown@ + clear_eol());
    }

    fn cursor(&mut self, amount: u64, dir: u8)
        ensures
            final(self).shown@ == old(self).shown@ + cursor_seq(amount as nat, dir),
    {
        if amount > 0 {
            self.shown.push(ESC);
            self.shown.push(0x5b);
            push_decimal(&mut self.shown, amount);
            self.shown.push(dir);
            assert(self.shown@ =~= old(self).shown@ + cursor_seq(amount as nat, dir));
        } else {
            assert(self.shown@ =~= old(self).shown@ + cursor_seq(amount as nat, dir));
        }
    }

    /// Moves the cursor right (`amount > 0`) or left (`amount < 0`).
    pub fn hmove(&mut self, amount: i32)
        ensures
            final(self).shown@ == old(self).shown@ + if amount >= 0 {
                right_seq(amount as nat)
            } else {
                left_seq((-amount) as nat)
            },
    {
        if amount >= 0 {
            self.cursor(amount as u64, 0x43);
        } else {
            let m: i64 = -(amount as i64);
            self.cursor(m as u64, 0x44);
        }
    }

    pub fn move_left(&mut self, amount: usize)
        ensures
            final(self).shown@ == old(self).shown@ + left_seq(amount as nat),
    {
        self.cursor(amount as u64, 0x44);
    }

    pub fn move_right(&mut self, amount: usize)
        ensures
            final(self).shown@ == old(self).shown@ + right_seq(amount as nat),
    {
        self.cursor(amount as u64, 0x43);
    }

    /// Hands out the pending bytes and forgets them.
    pub fn take(&mut self) -> (r: Vec<u8>)
        ensures
            r@ == old(self).shown@,
            final(self).shown@ == Seq::<u8>::empty(),
    {
        let mut r: Vec<u8> = Vec::new();
        std::mem::swap(&mut r, &mut self.shown);
        r
    }
}

} // verus!
