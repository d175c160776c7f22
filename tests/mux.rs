use ush::term::Reading;
use ush::mux::{
    after_offer, classify_signal, reading_outcome, record_frame, verdict, EntryStep, StreamEvent, Topology, Verdict,
    SIGINT, SIGTSTP,
};

#[test]
fn topology_flattens_in_registration_order() {
    let t = Topology::new(2).add(vec![vec![7]]).add(vec![vec![0, 9], vec![5]]);
    assert_eq!(t.len(), 4);
    assert_eq!(t.fds(), &vec![7, 0, 9, 5]);
    assert!(t.entry_step(0, true, false) == EntryStep::Read { dest: 0, source: 0, fd: 7 });
    assert!(t.entry_step(1, true, true) == EntryStep::Read { dest: 1, source: 0, fd: 0 });
    assert!(t.entry_step(2, true, false) == EntryStep::Read { dest: 1, source: 0, fd: 9 });
    assert!(t.entry_step(3, true, false) == EntryStep::Read { dest: 1, source: 1, fd: 5 });
    assert!(t.entry_step(3, false, true) == EntryStep::Stop);
    assert!(t.entry_step(2, false, false) == EntryStep::Skip);
}

#[test]
fn topology_empty_sources() {
    let t = Topology::new(1).add(vec![]).add(vec![vec![], vec![3]]);
    assert_eq!(t.len(), 1);
    assert!(t.entry_step(0, true, false) == EntryStep::Read { dest: 1, source: 1, fd: 3 });
}

#[test]
fn two_sources_one_sink() {
    let t = Topology::new(1).add(vec![vec![10], vec![11]]);
    for i in 0..2 {
        match t.entry_step(i, true, false) {
            EntryStep::Read { dest, source, .. } => {
                assert_eq!(dest, 0);
                assert_eq!(source, i);
            }
            _ => panic!("expected a read"),
        }
        match verdict(Ok(b"typed".to_vec())) {
            Verdict::Write(b) => assert_eq!(b, b"typed".to_vec()),
            _ => panic!("expected a write"),
        }
        match verdict(Err(StreamEvent::Error("broken".to_string()))) {
            Verdict::Abort(m) => assert_eq!(m, "broken"),
            _ => panic!("expected an abort"),
        }
    }
}

#[test]
fn verdict_on_eof_and_signals() {
    assert!(matches!(verdict(Err(StreamEvent::Eof)), Verdict::OfferEof));
    assert!(matches!(verdict(Err(StreamEvent::Interrupt)), Verdict::Ignore));
    assert!(matches!(verdict(Err(StreamEvent::TermStop)), Verdict::Ignore));
    assert!(after_offer(true));
    assert!(!after_offer(false));
}

#[test]
fn signal_classification() {
    assert!(matches!(classify_signal(SIGINT), Some(StreamEvent::Interrupt)));
    assert!(matches!(classify_signal(SIGTSTP), Some(StreamEvent::TermStop)));
    assert!(classify_signal(2 + 1).is_none());
    assert!(classify_signal(0).is_none());
    assert_eq!(SIGINT, 2);
    assert_eq!(SIGTSTP, 20);
}

#[test]
fn transcript_frame() {
    assert_eq!(record_frame(1700000000, b"ls\n"), b"1700000000\x02ls\n\x03".to_vec());
    assert_eq!(record_frame(0, b""), b"0\x02\x03".to_vec());
}

#[test]
fn reading_outcomes() {
    assert_eq!(reading_outcome(Reading::tbc(Some(b"ab\n".to_vec()))).ok(), Some(b"ab\n".to_vec()));
    assert_eq!(reading_outcome(Reading::tbc(None)).ok(), Some(vec![]));
    assert!(matches!(reading_outcome(Reading::finished(Some(vec![1]))), Err(StreamEvent::Eof)));
    assert!(matches!(reading_outcome(Reading::finished(None)), Err(StreamEvent::Eof)));
}
