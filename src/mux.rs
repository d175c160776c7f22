//! The decisions of the source/sink reactor: which descriptor belongs to
//! which source and sink, what a read outcome does to the run, how a signal
//! record is classified, and how a transcript write is framed.

use crate::term::{decimal, push_decimal, Reading};
use vstd::prelude::*;

verus! {

pub type Fd = i32;

/// What a source reports besides data.
pub enum StreamEvent {
    Eof,
    Interrupt,
    TermStop,
    Error(String),
}

/// The poll-set entries of source `s` of destination `d`, one per
/// descriptor.
pub open spec fn source_entries(d: int, s: int, fds: Seq<Fd>) -> Seq<(usize, usize, Fd)> {
    fds.map_values(|fd: Fd| (d as usize, s as usize, fd))
}

/// The poll-set entries of destination `d`, source by source.
pub open spec fn dest_entries(d: int, srcs: Seq<Seq<Fd>>) -> Seq<(usize, usize, Fd)>
    decreases srcs.len(),
{
    if srcs.len() == 0 {
        seq![]
    } else {
        dest_entries(d, srcs.drop_last()) + source_entries(
            d,
            srcs.len() - 1,
            srcs.last(),
        )
    }
}

/// The poll set of a layout (destinations, their sources, their
/// descriptors): one entry per descriptor, in registration order, each
/// with the destination and source it belongs to.
pub open spec fn flatten(layout: Seq<Seq<Seq<Fd>>>) -> Seq<(usize, usize, Fd)>
    decreases layout.len(),
{
    if layout.len() == 0 {
        seq![]
    } else {
        flatten(layout.drop_last()) + dest_entries(layout.len() - 1, layout.last())
    }
}

/// How many descriptors the sources of a destination have in all.
pub open spec fn count_fds(srcs: Seq<Seq<Fd>>) -> nat
    decreases srcs.len(),
{
    if srcs.len() == 0 {
        0
    } else {
        count_fds(srcs.drop_last()) + srcs.last().len()
    }
}

/// Where descriptor `k` of source `s` of destination `d` stands in the poll
/// set.
pub open spec fn entry_index(layout: Seq<Seq<Seq<Fd>>>, d: int, s: int, k: int) -> int {
    flatten(layout.subrange(0, d)).len() + count_fds(layout[d].subrange(0, s)) + k
}

pub proof fn lemma_dest_entries_len(d: int, srcs: Seq<Seq<Fd>>)
    ensures
        dest_entries(d, srcs).len() == count_fds(srcs),
    decreases srcs.len(),
{
    if srcs.len() > 0 {
        lemma_dest_entries_len(d, srcs.drop_last());
    }
}

proof fn lemma_dest_entries_at(d: int, srcs: Seq<Seq<Fd>>, s: int, k: int)
    requires
        0 <= s < srcs.len(),
        0 <= k < srcs[s].len(),
    ensures
        count_fds(srcs.subrange(0, s)) + k < dest_entries(d, srcs).len(),
        dest_entries(d, srcs)[count_fds(srcs.subrange(0, s)) + k] == (
            d as usize,
            s as usize,
            srcs[s][k],
        ),
    decreases srcs.len(),
{
    lemma_dest_entries_len(d, srcs);
    lemma_dest_entries_len(d, srcs.drop_last());
    if s == srcs.len() - 1 {
        assert(srcs.subrange(0, s) =~= srcs.drop_last());
    } else {
        assert(srcs.drop_last().subrange(0, s) =~= srcs.subrange(0, s));
        lemma_dest_entries_at(d, srcs.drop_last(), s, k);
    }
}

proof fn lemma_flatten_at(layout: Seq<Seq<Seq<Fd>>>, d: int, s: int, k: int)
    requires
        0 <= d < layout.len(),
        0 <= s < layout[d].len(),
        0 <= k < layout[d][s].len(),
    ensures
        0 <= entry_index(layout, d, s, k) < flatten(layout).len(),
        flatten(layout)[entry_index(layout, d, s, k)] == (d as usize, s as usize, layout[d][s][k]),
    decreases layout.len(),
{
    if d == layout.len() - 1 {
        assert(layout.subrange(0, d) =~= layout.drop_last());
        lemma_dest_entries_at(d, layout[d], s, k);
    } else {
        assert(layout.drop_last().subrange(0, d) =~= layout.subrange(0, d));
        lemma_flatten_at(layout.drop_last(), d, s, k);
    }
}

/// Every descriptor of every source is in the poll set, once per
/// registration, and is routed to its own source and to the sink of the
/// destination it was registered with.
pub proof fn lemma_every_source_is_polled(layout: Seq<Seq<Seq<Fd>>>, d: int, s: int, k: int)
    requires
        0 <= d < layout.len(),
        0 <= s < layout[d].len(),
        0 <= k < layout[d][s].len(),
    ensures
        0 <= entry_index(layout, d, s, k) < flatten(layout).len(),
        flatten(layout)[entry_index(layout, d, s, k)] == (d as usize, s as usize, layout[d][s][k]),
{
    lemma_flatten_at(layout, d, s, k);
}

/// The poll set of a reactor, built once: for each entry, the descriptor
/// and the destination and source that it belongs to.
pub struct Topology {
    fds: Vec<Fd>,
    routes: Vec<(usize, usize)>,
    ndest: usize,
    layout: Ghost<Seq<Seq<Seq<Fd>>>>,
}

impl Topology {
    /// The destinations, with their sources' descriptors, as registered.
    pub closed spec fn layout(&self) -> Seq<Seq<Seq<Fd>>> {
        self.layout@
    }

    /// The poll set.
    pub open spec fn entries(&self) -> Seq<(usize, usize, Fd)> {
        flatten(self.layout())
    }

    pub closed spec fn wf(&self) -> bool {
        &&& self.fds@.len() == self.routes@.len()
        &&& self.fds@.len() == flatten(self.layout@).len()
        &&& self.ndest == self.layout@.len()
        &&& forall|i: int|
            0 <= i < self.fds@.len() ==> (#[trigger] self.routes@[i]).0 == flatten(self.layout@)[i].0
                && self.routes@[i].1 == flatten(self.layout@)[i].1
        &&& forall|i: int|
            0 <= i < self.fds@.len() ==> #[trigger] self.fds@[i] == flatten(self.layout@)[i].2
    }

    /// An empty topology, with room for `size` destinations.
    pub fn new(size: usize) -> (r: Self)
        ensures
            r.wf(),
            r.layout() == Seq::<Seq<Seq<Fd>>>::empty(),
    {
        Topology {
            fds: Vec::with_capacity(size),
            routes: Vec::new(),
            ndest: 0,
            layout: Ghost(Seq::empty()),
        }
    }

    /// Registers one more destination whose sources have the descriptors
    /// `sources`; their entries go to the end of the poll set.
    pub fn add(self, sources: Vec<Vec<Fd>>) -> (r: Self)
        requires
            self.wf(),
            self.layout().len() < usize::MAX,
        ensures
            r.wf(),
            r.layout() == self.layout().push(sources@.map_values(|v: Vec<Fd>| v@)),
    {
        let mut t = self;
        let ghost srcs = sources@.map_values(|v: Vec<Fd>| v@);
        let ghost base = flatten(t.layout@);
        let ghost lay = t.layout@;
        let d = t.ndest;
        let mut si: usize = 0;
        while si < sources.len()
            invariant
                0 <= si <= sources@.len(),
                srcs == sources@.map_values(|v: Vec<Fd>| v@),
                d == t.ndest,
                lay == t.layout@,
                d == lay.len(),
                base == flatten(lay),
                t.fds@.len() == t.routes@.len(),
                t.fds@.len() == base.len() + dest_entries(d as int, srcs.subrange(0, si as int)).len(),
                forall|i: int|
                    0 <= i < t.fds@.len() ==> ((#[trigger] t.routes@[i]).0, t.routes@[i].1, t.fds@[i])
                        == (base + dest_entries(d as int, srcs.subrange(0, si as int)))[i],
            decreases sources@.len() - si,
        {
            let src = &sources[si];
            let ghost before = base + dest_entries(d as int, srcs.subrange(0, si as int));
            let mut k: usize = 0;
            while k < src.len()
                invariant
                    0 <= k <= src@.len(),
                    si < sources@.len(),
                    src@ == srcs[si as int],
                    srcs == sources@.map_values(|v: Vec<Fd>| v@),
                    d == t.ndest,
                    lay == t.layout@,
                    t.fds@.len() == t.routes@.len(),
                    t.fds@.len() == before.len() + k,
                    forall|i: int|
                        0 <= i < t.fds@.len() ==> ((#[trigger] t.routes@[i]).0, t.routes@[i].1, t.fds@[i])
                            == (before + source_entries(d as int, si as int, src@.subrange(0, k as int)))[i],
                decreases src@.len() - k,
            {
                t.fds.push(src[k]);
                t.routes.push((d, si));
                assert(source_entries(d as int, si as int, src@.subrange(0, k + 1)) =~= source_entries(
                    d as int,
                    si as int,
                    src@.subrange(0, k as int),
                ).push((d, si, src@[k as int])));
                k = k + 1;
            }
            assert(src@.subrange(0, src@.len() as int) =~= src@);
            assert(srcs.subrange(0, si + 1).drop_last() =~= srcs.subrange(0, si as int));
            assert(base + dest_entries(d as int, srcs.subrange(0, si + 1)) =~= before
                + source_entries(d as int, si as int, src@));
            si = si + 1;
        }
        assert(srcs.subrange(0, sources@.len() as int) =~= srcs);
        let ghost nl = t.layout@.push(srcs);
        assert(nl.drop_last() =~= t.layout@);
        assert(flatten(nl) == base + dest_entries(d as int, srcs));
        t.layout = Ghost(nl);
        assert forall|i: int| 0 <= i < t.fds@.len() implies #[trigger] t.fds@[i] == flatten(
            t.layout@,
        )[i].2 by {
            assert(((t.routes@[i]).0, t.routes@[i].1, t.fds@[i]) == flatten(nl)[i]);
        }
        t.ndest = d + 1;
        t
    }

    /// The number of entries in the poll set.
    pub fn len(&self) -> (r: usize)
        requires
            self.wf(),
        ensures
            r == self.entries().len(),
    {
        self.fds.len()
    }

    /// The descriptors to poll, in order.
    pub fn fds(&self) -> (r: &Vec<Fd>)
        requires
            self.wf(),
        ensures
            r@.len() == self.entries().len(),
            forall|i: int| 0 <= i < r@.len() ==> #[trigger] r@[i] == self.entries()[i].2,
    {
        &self.fds
    }

    /// What to do with poll entry `i` after a wake-up: read it when it is
    /// readable; end the run when it hung up with nothing to read;
    /// otherwise pass.
    pub fn entry_step(&self, i: usize, readable: bool, hangup: bool) -> (r: EntryStep)
        requires
            self.wf(),
            i < self.entries().len(),
        ensures
            readable ==> r == (EntryStep::Read {
                dest: self.entries()[i as int].0,
                source: self.entries()[i as int].1,
                fd: self.entries()[i as int].2,
            }),
            !readable && hangup ==> r == EntryStep::Stop,
            !readable && !hangup ==> r == EntryStep::Skip,
    {
        if readable {
            let (dest, source) = self.routes[i];
            EntryStep::Read { dest, source, fd: self.fds[i] }
        } else if hangup {
            EntryStep::Stop
        } else {
            EntryStep::Skip
        }
    }
}

/// What the loop does with one poll entry.
#[derive(PartialEq, Eq, Structural)]
pub enum EntryStep {
    /// Read descriptor `fd` of source `source` and hand the outcome to the
    /// sink of destination `dest`.
    Read { dest: usize, source: usize, fd: Fd },
    /// End the run.
    Stop,
    /// Nothing to do.
    Skip,
}

/// What a read outcome asks of the sink and of the run.
pub enum Verdict {
    /// Write the bytes to the sink and flush it; the run goes on.
    Write(Vec<u8>),
    /// Offer the sink a soft end of input; the run ends if it declines.
    OfferEof,
    /// The whole run fails with this message.
    Abort(String),
    /// Nothing happens; the run goes on.
    Ignore,
}

/// The policy for a read outcome: data is written as it came, end of input
/// is offered to the sink, an error aborts the whole run whichever source
/// it came from, and a signal event is absorbed.
pub fn verdict(outcome: Result<Vec<u8>, StreamEvent>) -> (r: Verdict)
    ensures
        match outcome {
            Ok(b) => r == Verdict::Write(b),
            Err(StreamEvent::Eof) => r is OfferEof,
            Err(StreamEvent::Error(m)) => r == Verdict::Abort(m),
            Err(_) => r is Ignore,
        },
{
    match outcome {
        Ok(b) => Verdict::Write(b),
        Err(StreamEvent::Eof) => Verdict::OfferEof,
        Err(StreamEvent::Error(m)) => Verdict::Abort(m),
        Err(StreamEvent::Interrupt) => Verdict::Ignore,
        Err(StreamEvent::TermStop) => Verdict::Ignore,
    }
}

/// Whether the run goes on after the sink answered an offered end of input.
pub fn after_offer(accepted: bool) -> (r: bool)
    ensures
        r == accepted,
{
    accepted
}

/// What a keyboard source yields for a reading of the keystroke machine:
/// the bytes it forwards (none is an empty write) while the session goes
/// on, end of input once it finished.
pub fn reading_outcome(r: Reading) -> (o: Result<Vec<u8>, StreamEvent>)
    ensures
        r.tbc ==> (o matches Ok(b) && b@ == (match r.output {
            Some(v) => v@,
            None => Seq::<u8>::empty(),
        })),
        !r.tbc ==> o matches Err(StreamEvent::Eof),
{
    if r.tbc {
        match r.output {
            Some(v) => Ok(v),
            None => Ok(Vec::new()),
        }
    } else {
        Err(StreamEvent::Eof)
    }
}

pub const SIGINT: u32 = 2;
pub const SIGTSTP: u32 = 20;

/// The size of the record that the signal descriptor yields per signal.
pub const SIGINFO_SIZE: usize = 128;

/// The stream event for a signal number read from the signal descriptor;
/// `None` for a number outside the blocked set.
pub fn classify_signal(signo: u32) -> (r: Option<StreamEvent>)
    ensures
        signo == SIGINT ==> r matches Some(StreamEvent::Interrupt),
        signo == SIGTSTP ==> r matches Some(StreamEvent::TermStop),
        signo != SIGINT && signo != SIGTSTP ==> r is None,
{
    if signo == SIGINT {
        Some(StreamEvent::Interrupt)
    } else if signo == SIGTSTP {
        Some(StreamEvent::TermStop)
    } else {
        None
    }
}

/// One transcript frame: `<unix seconds> 0x02 <bytes> 0x03`.
pub open spec fn frame(secs: nat, bytes: Seq<u8>) -> Seq<u8> {
    decimal(secs) + seq![2u8] + bytes + seq![3u8]
}

/// Frames the bytes of one write for the transcript.
pub fn record_frame(secs: u64, bytes: &[u8]) -> (r: Vec<u8>)
    ensures
        r@ == frame(secs as nat, bytes@),
{
    let mut r: Vec<u8> = Vec::new();
    push_decimal(&mut r, secs);
    r.push(2);
    crate::term::push_from(&mut r, bytes, 0);
    r.push(3);
    assert(bytes@.subrange(0, bytes@.len() as int) =~= bytes@);
    assert(r@ =~= frame(secs as nat, bytes@));
    r
}

} // verus!
