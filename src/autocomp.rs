//! The keystroke state machine: an echo state that passes lines through, and
//! a command state that completes the first word against the command index.

use crate::hint::{is_first_run, name_bytes, no_match, ExcerptIter, ShCommands};
use crate::term::{
    byte_views, clear_eol, left_seq, push_from, right_seq, DefaultVal, KeyAction, KeyBind, Reading,
    Term, TermReader,
};
use std::collections::HashMap;
use vstd::prelude::*;

verus! {

broadcast use vstd::std_specs::hash::group_hash_axioms;

pub const ENTER: u8 = 0x0a;
pub const TAB: u8 = 0x09;
pub const SPACE: u8 = 0x20;
pub const BACKSPACE: u8 = 0x7f;
pub const CTRL_D: u8 = 0x04;

/// The per-session state that the actions work on.
pub struct TermCtx<'a> {
    /// Bytes of the current line in the echo state, not yet sent.
    pub output: Vec<u8>,
    /// The token being typed in the command state.
    pub current: Vec<u8>,
    /// The finalized tokens.
    pub args: Vec<Vec<u8>>,
    /// The candidates that match the current token.
    pub chint: Option<ExcerptIter<'a, String>>,
    pub hints: &'a ShCommands,
    /// What is to be written to the local terminal.
    pub screen: Term,
}

/// A cursor as the session sees it: its run and its position.
pub open spec fn cursor_model<'a>(c: Option<ExcerptIter<'a, String>>) -> Option<
    (usize, usize, Option<usize>),
> {
    match c {
        Some(it) => Some((it.start(), it.end(), it.pos())),
        None => None,
    }
}

/// The whole observable state of a keystroke reader.
pub struct Session {
    pub output: Seq<u8>,
    pub current: Seq<u8>,
    pub args: Seq<Seq<u8>>,
    pub cursor: Option<(usize, usize, Option<usize>)>,
    pub shown: Seq<u8>,
    pub keys: Map<u8, KeyAction>,
    pub elsekey: KeyAction,
}

pub open spec fn session<'a>(tr: TermReader<TermCtx<'a>>) -> Session {
    Session {
        output: tr.ctx.output@,
        current: tr.ctx.current@,
        args: byte_views(tr.ctx.args@),
        cursor: cursor_model(tr.ctx.chint),
        shown: tr.ctx.screen.shown@,
        keys: tr.key_map@,
        elsekey: tr.elsekey,
    }
}

/// The echo state's table.
pub open spec fn echo_keys() -> Map<u8, KeyAction> {
    map![
        ENTER => KeyAction::SendOutput,
        TAB => KeyAction::EnterCmd,
        BACKSPACE => KeyAction::OutBackspace,
        CTRL_D => KeyAction::Terminate,
    ]
}

/// The command state's table.
pub open spec fn command_keys() -> Map<u8, KeyAction> {
    map![
        SPACE => KeyAction::Space,
        ENTER => KeyAction::Return,
        BACKSPACE => KeyAction::Backspace,
        TAB => KeyAction::QuitCmd,
        CTRL_D => KeyAction::Terminate,
    ]
}

/// `s` without its last byte, if it has one.
pub open spec fn drop_last_byte(s: Seq<u8>) -> Seq<u8> {
    if s.len() > 0 {
        s.drop_last()
    } else {
        s
    }
}

/// The tokens after finalizing `tok`: appended when not empty.
pub open spec fn finalize(args: Seq<Seq<u8>>, tok: Seq<u8>) -> Seq<Seq<u8>> {
    if tok.len() > 0 {
        args.push(tok)
    } else {
        args
    }
}

/// The candidate under a placed cursor.
pub open spec fn committed_candidate(
    hints: Seq<Seq<char>>,
    cursor: Option<(usize, usize, Option<usize>)>,
) -> Option<Seq<u8>> {
    match cursor {
        Some((_, _, Some(p))) => Some(name_bytes(hints[p as int])),
        _ => None,
    }
}

/// The token that a commit finalizes: the candidate under the cursor, or
/// the token as typed.
pub open spec fn committed_token(
    hints: Seq<Seq<char>>,
    cursor: Option<(usize, usize, Option<usize>)>,
    current: Seq<u8>,
) -> Seq<u8> {
    match committed_candidate(hints, cursor) {
        Some(c) => c,
        None => current,
    }
}

/// The cursor movement of a commit: past the rest of the candidate.
pub open spec fn commit_move(
    hints: Seq<Seq<char>>,
    cursor: Option<(usize, usize, Option<usize>)>,
    current: Seq<u8>,
) -> Seq<u8> {
    match committed_candidate(hints, cursor) {
        Some(c) => if c.len() > current.len() {
            right_seq((c.len() - current.len()) as nat)
        } else {
            seq![]
        },
        None => seq![],
    }
}

impl<'a> TermCtx<'a> {
    pub open spec fn wf(&self) -> bool {
        self.chint matches Some(c) ==> c.wf() && c.subject() == self.hints.entries()
    }

    pub fn new(hints: &'a ShCommands) -> (r: Self)
        ensures
            r.wf(),
            r.hints == hints,
            r.output@ == Seq::<u8>::empty(),
            r.current@ == Seq::<u8>::empty(),
            r.args@ == Seq::<Vec<u8>>::empty(),
            r.chint is None,
            r.screen.shown@ == Seq::<u8>::empty(),
    {
        TermCtx {
            output: Vec::new(),
            current: Vec::new(),
            args: Vec::new(),
            chint: None,
            hints,
            screen: Term::new(),
        }
    }

    /// Finalizes the current token, if it is not empty.
    pub fn pushstr(&mut self)
        ensures
            byte_views(final(self).args@) == finalize(byte_views(old(self).args@), old(self).current@),
            final(self).current@ == (if old(self).current@.len() > 0 {
                Seq::<u8>::empty()
            } else {
                old(self).current@
            }),
            final(self).output == old(self).output,
            final(self).chint == old(self).chint,
            final(self).hints == old(self).hints,
            final(self).screen == old(self).screen,
    {
        if self.current.len() > 0 {
            let mut tok: Vec<u8> = Vec::new();
            std::mem::swap(&mut tok, &mut self.current);
            self.args.push(tok);
            assert(byte_views(self.args@) =~= byte_views(old(self).args@).push(old(self).current@));
        }
    }

    /// Commits the candidate under the cursor, if the cursor is placed:
    /// moves the terminal cursor past it, makes it the token and finalizes it.
    pub fn autocomplete(&mut self)
        requires
            old(self).wf(),
        ensures
            final(self).wf(),
            final(self).output == old(self).output,
            final(self).chint == old(self).chint,
            final(self).hints == old(self).hints,
            match committed_candidate(old(self).hints@, cursor_model(old(self).chint)) {
                Some(c) => {
                    &&& final(self).screen.shown@ == old(self).screen.shown@ + commit_move(
                        old(self).hints@,
                        cursor_model(old(self).chint),
                        old(self).current@,
                    )
                    &&& byte_views(final(self).args@) == finalize(byte_views(old(self).args@), c)
                    &&& final(self).current@ == (if c.len() > 0 {
                        Seq::<u8>::empty()
                    } else {
                        c
                    })
                },
                None => {
                    &&& final(self).screen == old(self).screen
                    &&& final(self).args == old(self).args
                    &&& final(self).current == old(self).current
                },
            },
    {
        let cand: Option<Vec<u8>> = match &self.chint {
            Some(ch) => match ch.peek() {
                Some(name) => Some(vstd::slice::slice_to_vec(name.as_str().as_bytes())),
                None => None,
            },
            None => None,
        };
        match cand {
            Some(c) => {
                if c.len() > self.current.len() {
                    self.screen.move_right(c.len() - self.current.len());
                }
                self.current = c;
                self.pushstr();
            },
            None => {},
        }
    }
}

impl<'a> DefaultVal for TermCtx<'a> {
    open spec fn default_val(&self) -> Seq<Seq<u8>> {
        byte_views(self.args@)
    }

    fn val(&self) -> (r: &Vec<Vec<u8>>) {
        &self.args
    }
}

pub type MyReader<'a> = TermReader<TermCtx<'a>>;

/// The command state's table.
fn more_keys() -> (r: KeyBind)
    ensures
        r@ == command_keys(),
{
    let mut m: KeyBind = HashMap::new();
    m.insert(SPACE, KeyAction::Space);
    m.insert(ENTER, KeyAction::Return);
    m.insert(BACKSPACE, KeyAction::Backspace);
    m.insert(TAB, KeyAction::QuitCmd);
    m.insert(CTRL_D, KeyAction::Terminate);
    assert(m@ =~= command_keys());
    m
}

/// The echo state's table.
fn initial_keys() -> (r: KeyBind)
    ensures
        r@ == echo_keys(),
{
    let mut m: KeyBind = HashMap::new();
    m.insert(ENTER, KeyAction::SendOutput);
    m.insert(TAB, KeyAction::EnterCmd);
    m.insert(BACKSPACE, KeyAction::OutBackspace);
    m.insert(CTRL_D, KeyAction::Terminate);
    assert(m@ =~= echo_keys());
    m
}

/// A fresh session over `hints`, in the echo state.
pub fn default_term<'a>(hints: &'a ShCommands) -> (r: MyReader<'a>)
    ensures
        r.ctx.wf(),
        r.ctx.hints == hints,
        session(r) == (Session {
            output: seq![],
            current: seq![],
            args: seq![],
            cursor: None,
            shown: seq![],
            keys: echo_keys(),
            elsekey: KeyAction::OutElseKey,
        }),
{
    let r = MyReader::new(TermCtx::new(hints), initial_keys(), KeyAction::OutElseKey);
    assert(byte_views(r.ctx.args@) =~= seq![]);
    r
}


/// What the terminal shows for a candidate `cand` when `typed` bytes of it
/// are typed and `cand[from..]` is not yet on screen: the rest of the
/// candidate, a clear to the end of the line, and the cursor moved back to
/// just past the typed bytes.
pub open spec fn suggestion(cand: Seq<u8>, from: int, typed: int) -> Seq<u8> {
    cand.subrange(from, cand.len() as int) + clear_eol() + left_seq((cand.len() - typed) as nat)
}

/// The state after the token became `trial` and the index was asked for
/// it: the cursor covers the first run of candidates that start with
/// `trial`, placed on its first one, whose rest is shown after `base`;
/// with no candidate, no cursor and `plain` shown after `base`.
pub open spec fn requeried(
    hints: Seq<Seq<char>>,
    pre: Session,
    post: Session,
    trial: Seq<u8>,
    base: Seq<u8>,
    from: int,
    plain: Seq<u8>,
) -> bool {
    &&& post.output == pre.output
    &&& post.args == pre.args
    &&& post.keys == pre.keys
    &&& post.elsekey == pre.elsekey
    &&& post.current == trial
    &&& match post.cursor {
        Some((s, e, pos)) => {
            &&& is_first_run(hints, trial, s as int, e as int)
            &&& pos == Some(s)
            &&& post.shown == base + suggestion(
                name_bytes(hints[s as int]),
                from,
                trial.len() as int,
            )
        },
        None => no_match(hints, trial) && post.shown == base + plain,
    }
}

/// What action `a` does to a session over the index `hints` on the input
/// chunk `keys`, and the reading it returns (`tbc`, `out`).
pub open spec fn performs(
    a: KeyAction,
    hints: Seq<Seq<char>>,
    pre: Session,
    post: Session,
    keys: Seq<u8>,
    tbc: bool,
    out: Option<Seq<u8>>,
) -> bool {
    match a {
        KeyAction::SendOutput => {
            &&& post == Session { output: seq![], shown: pre.shown.push(ENTER), ..pre }
            &&& tbc
            &&& out == Some(pre.output.push(ENTER))
        },
        KeyAction::EnterCmd => {
            &&& post == Session { keys: command_keys(), elsekey: KeyAction::CmdElseKey, ..pre }
            &&& tbc
            &&& out is None
        },
        KeyAction::OutBackspace => {
            &&& post == Session {
                output: drop_last_byte(pre.output),
                shown: pre.shown + left_seq(1),
                ..pre
            }
            &&& tbc
            &&& out is None
        },
        KeyAction::Terminate => post == pre && !tbc && out is None,
        KeyAction::OutElseKey => {
            &&& post == Session { output: pre.output + keys, shown: pre.shown + keys, ..pre }
            &&& tbc
            &&& out is None
        },
        KeyAction::QuitCmd => {
            &&& post == Session {
                keys: echo_keys(),
                elsekey: KeyAction::OutElseKey,
                cursor: None,
                ..pre
            }
            &&& tbc
            &&& out is None
        },
        KeyAction::CmdElseKey => {
            &&& tbc
            &&& out is None
            &&& if pre.args.len() > 0 {
                post == Session { current: pre.current + keys, shown: pre.shown + keys, ..pre }
            } else {
                requeried(
                    hints,
                    pre,
                    post,
                    pre.current + keys,
                    pre.shown,
                    pre.current.len() as int,
                    keys + clear_eol(),
                )
            }
        },
        KeyAction::Backspace => {
            &&& tbc
            &&& out is None
            &&& if pre.args.len() > 0 {
                post == Session {
                    current: drop_last_byte(pre.current),
                    shown: pre.shown + left_seq(1),
                    ..pre
                }
            } else if pre.current.len() == 0 {
                post == pre
            } else {
                requeried(
                    hints,
                    pre,
                    post,
                    pre.current.drop_last(),
                    pre.shown + left_seq(1),
                    pre.current.len() - 1,
                    clear_eol(),
                )
            }
        },
        KeyAction::Space => {
            &&& tbc
            &&& out is None
            &&& if pre.args.len() > 0 {
                post == Session { current: pre.current + keys, shown: pre.shown + keys, ..pre }
            } else {
                let tok = committed_token(hints, pre.cursor, pre.current);
                post == Session {
                    current: seq![],
                    args: finalize(pre.args, tok),
                    shown: pre.shown + commit_move(hints, pre.cursor, pre.current) + (if tok.len()
                        > 0 {
                        keys
                    } else {
                        seq![]
                    }),
                    ..pre
                }
            }
        },
        KeyAction::Return => {
            &&& !tbc
            &&& out is None
            &&& if pre.args.len() > 0 {
                post == Session {
                    current: seq![],
                    args: finalize(pre.args, pre.current),
                    shown: pre.shown.push(ENTER),
                    ..pre
                }
            } else {
                let tok = committed_token(hints, pre.cursor, pre.current);
                post == Session {
                    current: seq![],
                    args: finalize(pre.args, tok),
                    shown: pre.shown + commit_move(hints, pre.cursor, pre.current) + seq![ENTER],
                    ..pre
                }
            }
        },
    }
}

pub open spec fn out_view(o: Option<Vec<u8>>) -> Option<Seq<u8>> {
    match o {
        Some(v) => Some(v@),
        None => None,
    }
}

/// `post` and `r` are what action `a` makes of `pre` on `keys`.
pub open spec fn does<'a>(
    a: KeyAction,
    pre: MyReader<'a>,
    post: MyReader<'a>,
    keys: Seq<u8>,
    r: Reading,
) -> bool {
    &&& post.ctx.wf()
    &&& post.ctx.hints == pre.ctx.hints
    &&& performs(a, pre.ctx.hints@, session(pre), session(post), keys, r.tbc, out_view(r.output))
}

fn enter_cmd<'a>(tr: &mut MyReader<'a>, _keys: &[u8]) -> (r: Reading)
    requires
        old(tr).ctx.wf(),
    ensures
        does(KeyAction::EnterCmd, *old(tr), *final(tr), _keys@, r),
{
    tr.set_mapping(more_keys(), KeyAction::CmdElseKey);
    Reading::tbc(None)
}

fn terminate<'a>(_tr: &mut MyReader<'a>, _keys: &[u8]) -> (r: Reading)
    requires
        old(_tr).ctx.wf(),
    ensures
        does(KeyAction::Terminate, *old(_tr), *final(_tr), _keys@, r),
{
    Reading::finished(None)
}

fn send_output<'a>(tr: &mut MyReader<'a>, _keys: &[u8]) -> (r: Reading)
    requires
        old(tr).ctx.wf(),
    ensures
        does(KeyAction::SendOutput, *old(tr), *final(tr), _keys@, r),
{
    let mut out: Vec<u8> = Vec::new();
    std::mem::swap(&mut out, &mut tr.ctx.output);
    out.push(ENTER);
    tr.ctx.screen.echo(&[ENTER]);
    assert(tr.ctx.screen.shown@ =~= old(tr).ctx.screen.shown@.push(ENTER));
    Reading::tbc(Some(out))
}

fn quit_cmd<'a>(tr: &mut MyReader<'a>, _keys: &[u8]) -> (r: Reading)
    requires
        old(tr).ctx.wf(),
    ensures
        does(KeyAction::QuitCmd, *old(tr), *final(tr), _keys@, r),
{
    tr.set_mapping(initial_keys(), KeyAction::OutElseKey);
    tr.ctx.chint = None;
    Reading::tbc(None)
}

/// Makes `trial` the token and asks the index for it; see `requeried`.
fn requery<'a>(ctx: &mut TermCtx<'a>, trial: Vec<u8>, from: usize, plain: &[u8])
    requires
        old(ctx).wf(),
        from <= trial@.len(),
    ensures
        final(ctx).wf(),
        final(ctx).hints == old(ctx).hints,
        final(ctx).output == old(ctx).output,
        final(ctx).args == old(ctx).args,
        final(ctx).current@ == trial@,
        match cursor_model(final(ctx).chint) {
            Some((s, e, pos)) => {
                &&& is_first_run(old(ctx).hints@, trial@, s as int, e as int)
                &&& pos == Some(s)
                &&& final(ctx).screen.shown@ == old(ctx).screen.shown@ + suggestion(
                    name_bytes(old(ctx).hints@[s as int]),
                    from as int,
                    trial@.len() as int,
                )
            },
            None => {
                &&& no_match(old(ctx).hints@, trial@)
                &&& final(ctx).screen.shown@ == old(ctx).screen.shown@ + plain@ + clear_eol()
            },
        },
{
    let h: &'a ShCommands = ctx.hints;
    match h.for_prefix_bytes(trial.as_slice()) {
        Some(mut it) => {
            let cand: Vec<u8> = match it.get() {
                Some(name) => vstd::slice::slice_to_vec(name.as_str().as_bytes()),
                None => Vec::new(),
            };
            assert(cand@ == name_bytes(h@[it.start() as int]));
            ctx.screen.echo_from(cand.as_slice(), from);
            ctx.screen.endline();
            ctx.screen.move_left(cand.len() - trial.len());
            ctx.current = trial;
            ctx.chint = Some(it);
        },
        None => {
            ctx.screen.echo(plain);
            ctx.screen.endline();
            ctx.current = trial;
            ctx.chint = None;
        },
    }
}

fn cmd_elsekey<'a>(tr: &mut MyReader<'a>, keys: &[u8]) -> (r: Reading)
    requires
        old(tr).ctx.wf(),
    ensures
        does(KeyAction::CmdElseKey, *old(tr), *final(tr), keys@, r),
{
    if tr.ctx.args.len() > 0 {
        tr.ctx.screen.echo(keys);
        push_from(&mut tr.ctx.current, keys, 0);
        assert(keys@.subrange(0, keys@.len() as int) =~= keys@);
        return Reading::tbc(None);
    }
    let from = tr.ctx.current.len();
    let mut trial = vstd::slice::slice_to_vec(tr.ctx.current.as_slice());
    push_from(&mut trial, keys, 0);
    assert(keys@.subrange(0, keys@.len() as int) =~= keys@);
    requery(&mut tr.ctx, trial, from, keys);
    proof {
        let post = session(*tr);
        let pre = session(*old(tr));
        if post.cursor is None {
            assert(post.shown =~= pre.shown + (keys@ + clear_eol()));
        }
    }
    Reading::tbc(None)
}

fn out_elsekey<'a>(tr: &mut MyReader<'a>, keys: &[u8]) -> (r: Reading)
    requires
        old(tr).ctx.wf(),
    ensures
        does(KeyAction::OutElseKey, *old(tr), *final(tr), keys@, r),
{
    tr.ctx.screen.echo(keys);
    push_from(&mut tr.ctx.output, keys, 0);
    assert(keys@.subrange(0, keys@.len() as int) =~= keys@);
    Reading::tbc(None)
}

fn ac_min_bs<'a>(tr: &mut MyReader<'a>, _keys: &[u8]) -> (r: Reading)
    requires
        old(tr).ctx.wf(),
    ensures
        does(KeyAction::OutBackspace, *old(tr), *final(tr), _keys@, r),
{
    tr.ctx.screen.hmove(-1);
    tr.ctx.output.pop();
    Reading::tbc(None)
}

fn ac_bs<'a>(tr: &mut MyReader<'a>, _keys: &[u8]) -> (r: Reading)
    requires
        old(tr).ctx.wf(),
    ensures
        does(KeyAction::Backspace, *old(tr), *final(tr), _keys@, r),
{
    if tr.ctx.args.len() > 0 {
        tr.ctx.screen.hmove(-1);
        tr.ctx.current.pop();
        return Reading::tbc(None);
    }
    if tr.ctx.current.len() == 0 {
        return Reading::tbc(None);
    }
    let mut trial = vstd::slice::slice_to_vec(tr.ctx.current.as_slice());
    trial.pop();
    let from = trial.len();
    tr.ctx.screen.hmove(-1);
    requery(&mut tr.ctx, trial, from, &[]);
    proof {
        let post = session(*tr);
        let pre = session(*old(tr));
        assert(post.cursor is Some || post.shown =~= pre.shown + left_seq(1) + clear_eol());
    }
    Reading::tbc(None)
}

fn ac_space<'a>(tr: &mut MyReader<'a>, keys: &[u8]) -> (r: Reading)
    requires
        old(tr).ctx.wf(),
    ensures
        does(KeyAction::Space, *old(tr), *final(tr), keys@, r),
{
    if tr.ctx.args.len() > 0 {
        tr.ctx.screen.echo(keys);
        push_from(&mut tr.ctx.current, keys, 0);
        assert(keys@.subrange(0, keys@.len() as int) =~= keys@);
        return Reading::tbc(None);
    }
    let n = tr.ctx.args.len();
    tr.ctx.autocomplete();
    let ghost a1 = byte_views(tr.ctx.args@);
    let ghost c1 = tr.ctx.current@;
    tr.ctx.pushstr();
    let grew = tr.ctx.args.len() > n;
    if grew {
        tr.ctx.screen.echo(keys);
    }
    proof {
        let hints = old(tr).ctx.hints@;
        let pre = session(*old(tr));
        let post = session(*tr);
        let tok = committed_token(hints, pre.cursor, pre.current);
        assert(byte_views(tr.ctx.args@).len() == tr.ctx.args@.len());
        assert(byte_views(old(tr).ctx.args@).len() == old(tr).ctx.args@.len());
        assert(grew == (tok.len() > 0));
        assert(post.current =~= seq![]);
        assert(post.args =~= finalize(pre.args, tok));
        if grew {
            assert(post.shown =~= pre.shown + commit_move(hints, pre.cursor, pre.current) + keys@);
        } else {
            assert(post.shown =~= pre.shown + commit_move(hints, pre.cursor, pre.current) + seq![]);
        }
    }
    Reading::tbc(None)
}

fn ac_ret<'a>(tr: &mut MyReader<'a>, _keys: &[u8]) -> (r: Reading)
    requires
        old(tr).ctx.wf(),
    ensures
        does(KeyAction::Return, *old(tr), *final(tr), _keys@, r),
{
    let first = tr.ctx.args.len() == 0;
    if first {
        tr.ctx.autocomplete();
    }
    let ghost a1 = byte_views(tr.ctx.args@);
    let ghost c1 = tr.ctx.current@;
    let ghost s1 = tr.ctx.screen.shown@;
    tr.ctx.pushstr();
    tr.ctx.screen.echo(&[ENTER]);
    proof {
        let hints = old(tr).ctx.hints@;
        let pre = session(*old(tr));
        let post = session(*tr);
        assert(post.current =~= seq![]);
        assert(post.shown =~= s1.push(ENTER));
        if first {
            let tok = committed_token(hints, pre.cursor, pre.current);
            assert(post.args =~= finalize(pre.args, tok));
            assert(post.shown =~= pre.shown + commit_move(hints, pre.cursor, pre.current) + seq![
                ENTER,
            ]);
        } else {
            assert(post.args =~= finalize(pre.args, pre.current));
        }
    }
    Reading::finished(None)
}

/// The action that a chunk starting with byte `b` triggers.
pub open spec fn selected(keys: Map<u8, KeyAction>, elsekey: KeyAction, b: u8) -> KeyAction {
    if keys.contains_key(b) {
        keys[b]
    } else {
        elsekey
    }
}

impl KeyAction {
    pub fn run<'a>(&self, tr: &mut MyReader<'a>, keys: &[u8]) -> (r: Reading)
        requires
            old(tr).ctx.wf(),
        ensures
            does(*self, *old(tr), *final(tr), keys@, r),
    {
        match self {
            KeyAction::SendOutput => send_output(tr, keys),
            KeyAction::EnterCmd => enter_cmd(tr, keys),
            KeyAction::OutBackspace => ac_min_bs(tr, keys),
            KeyAction::Terminate => terminate(tr, keys),
            KeyAction::OutElseKey => out_elsekey(tr, keys),
            KeyAction::Space => ac_space(tr, keys),
            KeyAction::Return => ac_ret(tr, keys),
            KeyAction::Backspace => ac_bs(tr, keys),
            KeyAction::QuitCmd => quit_cmd(tr, keys),
            KeyAction::CmdElseKey => cmd_elsekey(tr, keys),
        }
    }
}

impl<'a> TermReader<TermCtx<'a>> {
    /// Feeds one input chunk: the action that the active table gives its
    /// first byte (or the default action) handles the whole chunk. An empty
    /// chunk changes nothing.
    pub fn accept(&mut self, keys: &[u8]) -> (r: Reading)
        requires
            old(self).ctx.wf(),
        ensures
            final(self).ctx.wf(),
            final(self).ctx.hints == old(self).ctx.hints,
            keys@.len() == 0 ==> session(*final(self)) == session(*old(self)) && r.tbc
                && r.output is None,
            keys@.len() > 0 ==> does(
                selected(old(self).key_map@, old(self).elsekey, keys@[0]),
                *old(self),
                *final(self),
                keys@,
                r,
            ),
    {
        if keys.len() == 0 {
            return Reading::tbc(None);
        }
        let a = match self.key_map.get(&keys[0]) {
            Some(x) => *x,
            None => self.elsekey,
        };
        a.run(self, keys)
    }
}


pub open spec fn in_echo_state(s: Session) -> bool {
    s.keys == echo_keys() && s.elsekey == KeyAction::OutElseKey
}

pub open spec fn in_command_state(s: Session) -> bool {
    s.keys == command_keys() && s.elsekey == KeyAction::CmdElseKey
}

/// Every chunk leaves a reader that was in the echo or the command state
/// in one of the two.
pub proof fn lemma_one_state_live(
    hints: Seq<Seq<char>>,
    pre: Session,
    post: Session,
    keys: Seq<u8>,
    tbc: bool,
    out: Option<Seq<u8>>,
)
    requires
        in_echo_state(pre) || in_command_state(pre),
        keys.len() > 0,
        performs(selected(pre.keys, pre.elsekey, keys[0]), hints, pre, post, keys, tbc, out),
    ensures
        in_echo_state(post) || in_command_state(post),
{
}

/// Ctrl-D ends the session in either state, and changes nothing.
pub proof fn lemma_ctrl_d_terminates(
    hints: Seq<Seq<char>>,
    pre: Session,
    post: Session,
    keys: Seq<u8>,
    tbc: bool,
    out: Option<Seq<u8>>,
)
    requires
        in_echo_state(pre) || in_command_state(pre),
        keys.len() > 0,
        keys[0] == CTRL_D,
        performs(selected(pre.keys, pre.elsekey, keys[0]), hints, pre, post, keys, tbc, out),
    ensures
        !tbc,
        post == pre,
        out is None,
{
    assert(pre.keys.contains_key(CTRL_D));
}

/// A session ends only on Ctrl-D, or on Enter in the command state; Enter
/// in the echo state sends the line and goes on.
pub proof fn lemma_only_ctrl_d_or_command_enter_finish(
    hints: Seq<Seq<char>>,
    pre: Session,
    post: Session,
    keys: Seq<u8>,
    tbc: bool,
    out: Option<Seq<u8>>,
)
    requires
        in_echo_state(pre) || in_command_state(pre),
        keys.len() > 0,
        performs(selected(pre.keys, pre.elsekey, keys[0]), hints, pre, post, keys, tbc, out),
        !tbc,
    ensures
        keys[0] == CTRL_D || (keys[0] == ENTER && in_command_state(pre)),
{
}

} // verus!
