use ush::hint::{compare_keys, search_dirs, split_path, ExcerptIter, ShCommands, FALLBACK_PATH};

fn names(v: &[&str]) -> Vec<String> {
    v.iter().map(|s| s.to_string()).collect()
}

fn listed(ix: &ShCommands) -> Vec<String> {
    ix.commands().clone()
}

#[test]
fn iterator_next_prev() {
    let iterated = vec!["foo", "bar", "baz", "um", "tum"];
    let mut sut = ExcerptIter::new(&iterated, 1, 3).unwrap();

    assert_eq!(sut.next().unwrap().to_string(), "bar");
    assert_eq!(sut.next().unwrap().to_string(), "baz");
    assert!(sut.next().is_none());
    assert_eq!(sut.prev().unwrap().to_string(), "bar");
    assert!(sut.prev().is_none());
}

#[test]
fn excerpt_rejects_bad_ranges() {
    let v = vec![1, 2, 3];
    assert!(ExcerptIter::new(&v, 2, 2).is_err());
    assert!(ExcerptIter::new(&v, 2, 1).is_err());
    assert!(ExcerptIter::new(&v, 1, 4).is_err());
    assert!(ExcerptIter::new(&v, 0, 3).is_ok());
}

#[test]
fn excerpt_get_and_peek() {
    let v = vec!["a", "b", "c", "d"];
    let mut it = ExcerptIter::new(&v, 2, 4).unwrap();
    assert!(it.peek().is_none());
    assert_eq!(it.position(), None);
    assert_eq!(*it.get().unwrap(), "c");
    assert_eq!(it.position(), Some(2));
    assert_eq!(*it.peek().unwrap(), "c");
    assert_eq!(*it.get().unwrap(), "c");
    assert!(it.prev().is_none());
    assert_eq!(*it.next().unwrap(), "d");
    assert!(it.next().is_none());
    assert_eq!(it.bounds(), (2, 4));
}

#[test]
fn index_dedups_entries_found_twice() {
    let ix = ShCommands::new(names(&["ls", "cat", "ls", "cat", "awk"]));
    assert_eq!(listed(&ix), names(&["awk", "cat", "ls"]));
}

#[test]
fn index_sorts_case_insensitively() {
    let ix = ShCommands::new(names(&["b", "A", "c", "B", "a", "C", "b"]));
    let got = listed(&ix);
    assert_eq!(got.len(), 6);
    for w in got.windows(2) {
        assert!(w[0].to_lowercase() <= w[1].to_lowercase());
    }
    assert_eq!(got, names(&["A", "a", "B", "b", "C", "c"]));
}

#[test]
fn index_sorts_by_lowercase_not_bytes() {
    let ix = ShCommands::new(names(&["zsh", "Xorg", "awk", "Bash"]));
    assert_eq!(listed(&ix), names(&["awk", "Bash", "Xorg", "zsh"]));
}

#[test]
fn index_of_nothing_is_empty() {
    let ix = ShCommands::new(vec![]);
    assert!(listed(&ix).is_empty());
    assert_eq!(ix.prefix_range(b"l"), None);
}

#[test]
fn prefix_range_finds_run() {
    let ix = ShCommands::new(names(&["lua", "lsblk", "ls"]));
    assert_eq!(listed(&ix), names(&["ls", "lsblk", "lua"]));
    assert_eq!(ix.prefix_range(b"ls"), Some((0, 2)));
    assert_eq!(ix.prefix_range(b"zz"), None);
    assert_eq!(ix.prefix_range(b"lu"), Some((2, 3)));
    assert_eq!(ix.prefix_range(b"l"), Some((0, 3)));
}

#[test]
fn prefix_range_trial_longer_than_candidates() {
    let ix = ShCommands::new(names(&["ls", "lsblk"]));
    assert_eq!(ix.prefix_range(b"lsblkxyz"), None);
    assert_eq!(ix.prefix_range(b"lsblk"), Some((1, 2)));
}

#[test]
fn prefix_range_is_case_sensitive() {
    let ix = ShCommands::new(names(&["LS", "ls"]));
    assert_eq!(ix.prefix_range(b"ls"), Some((1, 2)));
    assert_eq!(ix.prefix_range(b"LS"), Some((0, 1)));
}

#[test]
fn for_prefix_gives_unplaced_cursor() {
    let ix = ShCommands::new(names(&["ls", "lsblk", "lua"]));
    let mut it = ix.for_prefix(&"ls".to_string()).unwrap();
    assert_eq!(it.bounds(), (0, 2));
    assert!(it.peek().is_none());
    assert_eq!(it.get().unwrap(), "ls");
    assert_eq!(it.next().unwrap(), "lsblk");
    assert!(it.next().is_none());
    assert!(ix.for_prefix(&"zz".to_string()).is_none());
}

#[test]
fn for_prefix_multibyte_names() {
    let ix = ShCommands::new(names(&["été", "ecrire"]));
    assert_eq!(listed(&ix), names(&["ecrire", "été"]));
    let mut it = ix.for_prefix(&"é".to_string()).unwrap();
    assert_eq!(it.get().unwrap(), "été");
    assert_eq!(ix.prefix_range("é".as_bytes()), Some((1, 2)));
}

#[test]
fn compare_keys_orders_by_first_then_second() {
    let s = |x: &str| x.to_string();
    assert!(compare_keys(&s("ls"), &s("LS"), &s("ls"), &s("ls")) < 0);
    assert!(compare_keys(&s("ls"), &s("ls"), &s("ls"), &s("LS")) > 0);
    assert_eq!(compare_keys(&s("ls"), &s("ls"), &s("ls"), &s("ls")), 0);
    assert!(compare_keys(&s("awk"), &s("zz"), &s("bash"), &s("aa")) < 0);
    assert!(compare_keys(&s("b"), &s("a"), &s("a"), &s("b")) > 0);
    assert!(compare_keys(&s("a"), &s("x"), &s("ab"), &s("x")) < 0);
}

#[test]
fn split_path_fields() {
    assert_eq!(split_path("/bin:/usr/bin"), names(&["/bin", "/usr/bin"]));
    assert_eq!(split_path(""), names(&[""]));
    assert_eq!(split_path("a::b:"), names(&["a", "", "b", ""]));
    assert_eq!(split_path(":é"), names(&["", "é"]));
}

#[test]
fn search_dirs_falls_back() {
    assert_eq!(search_dirs(None), names(&["/bin", "/usr/bin", "/sbin", "/usr/sbin"]));
    assert_eq!(FALLBACK_PATH, "/bin:/usr/bin:/sbin:/usr/sbin");
    assert_eq!(search_dirs(Some("/opt/x".to_string())), names(&["/opt/x"]));
}
