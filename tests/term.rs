use ush::term::{push_decimal, Reading, Term};

#[test]
fn decimal_digits() {
    let mut v = Vec::new();
    push_decimal(&mut v, 0);
    assert_eq!(v, b"0");
    let mut v = b"x".to_vec();
    push_decimal(&mut v, 1234567890);
    assert_eq!(v, b"x1234567890");
    let mut v = Vec::new();
    push_decimal(&mut v, u64::MAX);
    assert_eq!(v, b"18446744073709551615");
}

#[test]
fn term_sequences() {
    let mut t = Term::new();
    t.echo(b"ab");
    t.endline();
    t.hmove(3);
    t.hmove(-12);
    t.hmove(0);
    t.move_left(0);
    t.move_left(7);
    t.move_right(2);
    assert_eq!(t.take(), b"ab\x1b[K\x1b[3C\x1b[12D\x1b[7D\x1b[2C".to_vec());
    assert!(t.take().is_empty());
}

#[test]
fn term_hmove_extreme() {
    let mut t = Term::new();
    t.hmove(i32::MIN);
    assert_eq!(t.take(), b"\x1b[2147483648D".to_vec());
}

#[test]
fn term_echo_from() {
    let mut t = Term::new();
    t.echo_from(b"lsblk", 2);
    t.echo_from(b"ls", 2);
    assert_eq!(t.shown, b"blk".to_vec());
}

#[test]
fn reading_constructors() {
    let r = Reading::finished(None);
    assert!(!r.tbc);
    assert!(r.output.is_none());
    let r = Reading::tbc(Some(vec![1, 2]));
    assert!(r.tbc);
    assert_eq!(r.output, Some(vec![1, 2]));
}
