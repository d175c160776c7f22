use ush::autocomp::{default_term, MyReader};
use ush::hint::ShCommands;
use ush::term::{DefaultVal, KeyAction};

fn index(v: &[&str]) -> ShCommands {
    ShCommands::new(v.iter().map(|s| s.to_string()).collect())
}

fn feed(tr: &mut MyReader, keys: &[u8]) -> (bool, Option<Vec<u8>>) {
    let r = tr.accept(keys);
    (r.tbc, r.output)
}

fn cursor(tr: &MyReader) -> Option<((usize, usize), Option<usize>)> {
    tr.ctx.chint.as_ref().map(|c| (c.bounds(), c.position()))
}

#[test]
fn echo_state_flushes_line_on_enter() {
    let ix = index(&["ls"]);
    let mut tr = default_term(&ix);
    for k in [b"a", b"b", b"c"] {
        assert_eq!(feed(&mut tr, k), (true, None));
    }
    assert_eq!(tr.ctx.output, b"abc".to_vec());
    assert_eq!(feed(&mut tr, b"\n"), (true, Some(b"abc\n".to_vec())));
    assert!(tr.ctx.output.is_empty());
    assert_eq!(tr.ctx.screen.take(), b"abc\n".to_vec());
}

#[test]
fn echo_state_backspace_drops_one_byte() {
    let ix = index(&["ls"]);
    let mut tr = default_term(&ix);
    feed(&mut tr, b"ab");
    assert_eq!(feed(&mut tr, &[0x7f]), (true, None));
    assert_eq!(tr.ctx.output, b"a".to_vec());
    assert_eq!(tr.ctx.screen.take(), b"ab\x1b[1D".to_vec());
    feed(&mut tr, &[0x7f]);
    feed(&mut tr, &[0x7f]);
    assert!(tr.ctx.output.is_empty());
}

#[test]
fn echo_state_keeps_invalid_utf8() {
    let ix = index(&["ls"]);
    let mut tr = default_term(&ix);
    feed(&mut tr, &[0xff, 0xfe]);
    assert_eq!(feed(&mut tr, b"\n"), (true, Some(vec![0xff, 0xfe, b'\n'])));
}

#[test]
fn ctrl_d_ends_in_either_state() {
    let ix = index(&["ls"]);
    let mut tr = default_term(&ix);
    assert_eq!(feed(&mut tr, &[0x04]), (false, None));
    feed(&mut tr, b"\t");
    assert_eq!(feed(&mut tr, &[0x04]), (false, None));
}

#[test]
fn empty_chunk_changes_nothing() {
    let ix = index(&["ls"]);
    let mut tr = default_term(&ix);
    feed(&mut tr, b"x");
    assert_eq!(feed(&mut tr, b""), (true, None));
    assert_eq!(tr.ctx.output, b"x".to_vec());
}

#[test]
fn tab_switches_states() {
    let ix = index(&["ls"]);
    let mut tr = default_term(&ix);
    assert!(tr.elsekey == KeyAction::OutElseKey);
    feed(&mut tr, b"\t");
    assert!(tr.elsekey == KeyAction::CmdElseKey);
    assert!(tr.key_map.get(&b' ') == Some(&KeyAction::Space));
    feed(&mut tr, b"l");
    assert!(cursor(&tr).is_some());
    feed(&mut tr, b"\t");
    assert!(tr.elsekey == KeyAction::OutElseKey);
    assert!(tr.key_map.get(&b' ').is_none());
    assert!(cursor(&tr).is_none());
}

#[test]
fn command_state_attaches_cursor_and_space_finalizes() {
    let ix = index(&["ls", "lsblk"]);
    let mut tr = default_term(&ix);
    feed(&mut tr, b"\t");
    feed(&mut tr, b"l");
    feed(&mut tr, b"s");
    assert_eq!(tr.ctx.current, b"ls".to_vec());
    assert_eq!(cursor(&tr), Some(((0, 2), Some(0))));
    assert_eq!(feed(&mut tr, b" "), (true, None));
    assert_eq!(tr.ctx.args, vec![b"ls".to_vec()]);
    assert!(tr.ctx.current.is_empty());
    assert_eq!(tr.ctx.val(), &vec![b"ls".to_vec()]);
}

#[test]
fn command_state_enter_completes_single_candidate() {
    let ix = index(&["ls"]);
    let mut tr = default_term(&ix);
    feed(&mut tr, b"\t");
    feed(&mut tr, b"l");
    feed(&mut tr, &[0x7f]);
    assert!(tr.ctx.current.is_empty());
    assert_eq!(cursor(&tr), Some(((0, 1), Some(0))));
    tr.ctx.screen.take();
    assert_eq!(feed(&mut tr, b"\n"), (false, None));
    assert_eq!(tr.ctx.args, vec![b"ls".to_vec()]);
    assert_eq!(tr.ctx.screen.take(), b"\x1b[2C\n".to_vec());
}

#[test]
fn command_state_enter_completes_unique_match() {
    let ix = index(&["ls", "lsblk", "lua"]);
    let mut tr = default_term(&ix);
    feed(&mut tr, b"\t");
    feed(&mut tr, b"l");
    feed(&mut tr, b"s");
    feed(&mut tr, b"b");
    assert_eq!(cursor(&tr), Some(((1, 2), Some(1))));
    assert_eq!(feed(&mut tr, b"\n"), (false, None));
    assert_eq!(tr.ctx.args, vec![b"lsblk".to_vec()]);
}

#[test]
fn command_state_shows_ghost_suggestion() {
    let ix = index(&["ls", "lsblk"]);
    let mut tr = default_term(&ix);
    feed(&mut tr, b"\t");
    feed(&mut tr, b"l");
    assert_eq!(tr.ctx.screen.take(), b"ls\x1b[K\x1b[1D".to_vec());
    feed(&mut tr, b"s");
    assert_eq!(tr.ctx.screen.take(), b"s\x1b[K".to_vec());
    feed(&mut tr, b"b");
    assert_eq!(tr.ctx.screen.take(), b"blk\x1b[K\x1b[2D".to_vec());
    feed(&mut tr, &[0x7f]);
    assert_eq!(tr.ctx.current, b"ls".to_vec());
    assert_eq!(cursor(&tr), Some(((0, 2), Some(0))));
    assert_eq!(tr.ctx.screen.take(), b"\x1b[1D\x1b[K".to_vec());
}

#[test]
fn command_state_unmatched_key_is_kept() {
    let ix = index(&["ls"]);
    let mut tr = default_term(&ix);
    feed(&mut tr, b"\t");
    feed(&mut tr, b"l");
    tr.ctx.screen.take();
    feed(&mut tr, b"x");
    assert_eq!(tr.ctx.current, b"lx".to_vec());
    assert!(cursor(&tr).is_none());
    assert_eq!(tr.ctx.screen.take(), b"x\x1b[K".to_vec());
    feed(&mut tr, b" ");
    assert_eq!(tr.ctx.args, vec![b"lx".to_vec()]);
    assert_eq!(tr.ctx.screen.take(), b" ".to_vec());
}

#[test]
fn command_state_space_commits_suggestion() {
    let ix = index(&["lsblk"]);
    let mut tr = default_term(&ix);
    feed(&mut tr, b"\t");
    feed(&mut tr, b"l");
    tr.ctx.screen.take();
    feed(&mut tr, b" ");
    assert_eq!(tr.ctx.args, vec![b"lsblk".to_vec()]);
    assert_eq!(tr.ctx.screen.take(), b"\x1b[4C ".to_vec());
}

#[test]
fn command_state_arguments_are_literal() {
    let ix = index(&["ls"]);
    let mut tr = default_term(&ix);
    feed(&mut tr, b"\t");
    feed(&mut tr, b"l");
    feed(&mut tr, b" ");
    feed(&mut tr, b"-");
    feed(&mut tr, b"a");
    feed(&mut tr, b" ");
    feed(&mut tr, b"x");
    assert_eq!(tr.ctx.current, b"-a x".to_vec());
    feed(&mut tr, &[0x7f]);
    assert_eq!(tr.ctx.current, b"-a ".to_vec());
    assert_eq!(feed(&mut tr, b"\n"), (false, None));
    assert_eq!(tr.ctx.args, vec![b"ls".to_vec(), b"-a ".to_vec()]);
}

#[test]
fn command_state_backspace_on_empty_token_does_nothing() {
    let ix = index(&["ls"]);
    let mut tr = default_term(&ix);
    feed(&mut tr, b"\t");
    tr.ctx.screen.take();
    assert_eq!(feed(&mut tr, &[0x7f]), (true, None));
    assert!(tr.ctx.current.is_empty());
    assert!(tr.ctx.screen.take().is_empty());
}

#[test]
fn command_state_enter_with_nothing_typed() {
    let ix = index(&["ls"]);
    let mut tr = default_term(&ix);
    feed(&mut tr, b"\t");
    assert_eq!(feed(&mut tr, b"\n"), (false, None));
    assert!(tr.ctx.args.is_empty());
}
