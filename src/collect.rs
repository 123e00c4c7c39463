use vstd::prelude::*;

verus! {

/// Where a reply collection stands.
#[derive(Clone, Copy, PartialEq, Eq, Structural, Debug)]
pub enum Phase {
    /// The ready-to-receive line is being raised.
    Signalling,
    /// Waiting for the first byte of the reply.
    Waiting,
    /// Reading the reply until a read times out.
    Reading,
    /// The reply is complete.
    Done,
    /// The transport failed; what had been read is dropped.
    Failed,
}

/// What the transport answered to the last action.
#[derive(Clone, Debug, PartialEq, Eq)]
pub enum ReadEvent {
    /// The ready-to-receive line was raised.
    Signalled,
    /// This many bytes are waiting to be read.
    Available(u32),
    /// A read returned these bytes.
    Received(Vec<u8>),
    /// A read saw no byte within its timeout.
    TimedOut,
    /// The transport reported an error other than a timeout.
    Failed,
}

/// What the transport is to do next.
#[derive(Clone, Copy, PartialEq, Eq, Structural, Debug)]
pub enum ReadAction {
    /// Raise the ready-to-receive line.
    RaiseSignal,
    /// Wait `pause_ms` milliseconds, then ask how many bytes are waiting.
    Poll { pause_ms: u64 },
    /// Wait `pause_ms` milliseconds, then read.
    Read { pause_ms: u64 },
    /// Stop: the reply is complete.
    Finish,
    /// Stop: the collection failed.
    Abort,
}

/// The state of a collection as a value.
pub struct CollectorView {
    pub phase: Phase,
    pub raw: Seq<u8>,
    pub pause_ms: u64,
}

/// The state in which every collection begins.
pub open spec fn initial(pause_ms: u64) -> CollectorView {
    CollectorView { phase: Phase::Signalling, raw: Seq::<u8>::empty(), pause_ms }
}

/// The state after `event`. A finished collection stays as it is; a transport
/// error ends it and drops what was read; a timeout while reading completes it;
/// an event that does not answer the pending action changes nothing.
pub open spec fn next_view(s: CollectorView, event: ReadEvent) -> CollectorView {
    if s.phase == Phase::Done || s.phase == Phase::Failed {
        s
    } else {
        match event {
            ReadEvent::Failed => CollectorView { phase: Phase::Failed, raw: Seq::<u8>::empty(), ..s },
            ReadEvent::Signalled => if s.phase == Phase::Signalling {
                CollectorView { phase: Phase::Waiting, ..s }
            } else {
                s
            },
            ReadEvent::Available(n) => if s.phase == Phase::Waiting && n > 0 {
                CollectorView { phase: Phase::Reading, ..s }
            } else {
                s
            },
            ReadEvent::Received(bytes) => if s.phase == Phase::Reading {
                CollectorView { raw: s.raw + bytes@, ..s }
            } else {
                s
            },
            ReadEvent::TimedOut => if s.phase == Phase::Reading {
                CollectorView { phase: Phase::Done, ..s }
            } else {
                s
            },
        }
    }
}

/// The action after `event`: the one that the new phase asks for. The first
/// poll and the first read follow at once; the others wait `pause_ms`.
pub open spec fn next_action(s: CollectorView, event: ReadEvent) -> ReadAction {
    let t = next_view(s, event);
    match t.phase {
        Phase::Signalling => ReadAction::RaiseSignal,
        Phase::Waiting => ReadAction::Poll {
            pause_ms: if s.phase == Phase::Signalling {
                0
            } else {
                s.pause_ms
            },
        },
        Phase::Reading => ReadAction::Read {
            pause_ms: if s.phase == Phase::Waiting {
                0
            } else {
                s.pause_ms
            },
        },
        Phase::Done => ReadAction::Finish,
        Phase::Failed => ReadAction::Abort,
    }
}

/// The state after the events, one after another.
pub open spec fn run(s: CollectorView, events: Seq<ReadEvent>) -> CollectorView
    decreases events.len(),
{
    if events.len() == 0 {
        s
    } else {
        next_view(run(s, events.drop_last()), events.last())
    }
}

/// Collects the raw bytes of one reply. Its caller carries out each action on
/// the transport and hands back what came of it, until `Finish` or `Abort`.
pub struct ReplyCollector {
    phase: Phase,
    raw: Vec<u8>,
    pause_ms: u64,
}

impl View for ReplyCollector {
    type V = CollectorView;

    closed spec fn view(&self) -> CollectorView {
        CollectorView { phase: self.phase, raw: self.raw@, pause_ms: self.pause_ms }
    }
}

impl ReplyCollector {
    /// A new collection that pauses `pause_ms` milliseconds between polls and
    /// between reads, and the first action: raise the ready-to-receive line.
    pub fn start(pause_ms: u64) -> (r: (ReplyCollector, ReadAction))
        ensures
            r.0@ == initial(pause_ms),
            r.1 == ReadAction::RaiseSignal,
    {
        let c = ReplyCollector { phase: Phase::Signalling, raw: Vec::new(), pause_ms };
        assert(c@.raw =~= Seq::<u8>::empty());
        (c, ReadAction::RaiseSignal)
    }

    /// Takes in what the transport answered and says what to do next.
    pub fn step(&mut self, event: ReadEvent) -> (a: ReadAction)
        ensures
            final(self)@ == next_view(old(self)@, event),
            a == next_action(old(self)@, event),
    {
        let before = self.phase;
        if before == Phase::Done {
            return ReadAction::Finish;
        }
        if before == Phase::Failed {
            return ReadAction::Abort;
        }
        match event {
            ReadEvent::Failed => {
                self.phase = Phase::Failed;
                self.raw = Vec::new();
                assert(self@.raw =~= Seq::<u8>::empty());
            },
            ReadEvent::Signalled => {
                if before == Phase::Signalling {
                    self.phase = Phase::Waiting;
                }
            },
            ReadEvent::Available(n) => {
                if before == Phase::Waiting && n > 0 {
                    self.phase = Phase::Reading;
                }
            },
            ReadEvent::Received(bytes) => {
                if before == Phase::Reading {
                    let mut i: usize = 0;
                    let ghost start = self.raw@;
                    let ghost pause0 = self.pause_ms;
                    while i < bytes.len()
                        invariant
                            i <= bytes@.len(),
                            self.raw@ == start + bytes@.take(i as int),
                            self.phase == before,
                            self.pause_ms == pause0,
                        decreases bytes@.len() - i,
                    {
                        self.raw.push(bytes[i]);
                        i = i + 1;
                        assert(bytes@.take(i as int) =~= bytes@.take(i - 1).push(bytes@[i - 1]));
                    }
                    assert(bytes@.take(i as int) =~= bytes@);
                }
            },
            ReadEvent::TimedOut => {
                if before == Phase::Reading {
                    self.phase = Phase::Done;
                }
            },
        }
        match self.phase {
            Phase::Signalling => ReadAction::RaiseSignal,
            Phase::Waiting => ReadAction::Poll {
                pause_ms: if before == Phase::Signalling {
                    0
                } else {
                    self.pause_ms
                },
            },
            Phase::Reading => ReadAction::Read {
                pause_ms: if before == Phase::Waiting {
                    0
                } else {
                    self.pause_ms
                },
            },
            Phase::Done => ReadAction::Finish,
            Phase::Failed => ReadAction::Abort,
        }
    }

    /// Where the collection stands.
    pub fn phase(&self) -> (p: Phase)
        ensures
            p == self@.phase,
    {
        self.phase
    }

    /// The bytes collected so far, left in place.
    pub fn raw(&self) -> (r: &Vec<u8>)
        ensures
            r@ == self@.raw,
    {
        &self.raw
    }

    /// The bytes collected so far; after `Finish`, the whole raw reply.
    pub fn into_reply(self) -> (r: Vec<u8>)
        ensures
            r@ == self@.raw,
    {
        self.raw
    }
}

/// The events of reads that each returned one of `chunks`, in order.
pub open spec fn receipts(chunks: Seq<Vec<u8>>) -> Seq<ReadEvent> {
    Seq::new(chunks.len(), |i: int| ReadEvent::Received(chunks[i]))
}

/// The chunks joined in order.
pub open spec fn joined(chunks: Seq<Vec<u8>>) -> Seq<u8>
    decreases chunks.len(),
{
    if chunks.len() == 0 {
        Seq::<u8>::empty()
    } else {
        joined(chunks.drop_last()) + chunks.last()@
    }
}

/// The events of a transport that raises its line, has `n` bytes waiting and
/// then answers reads with `chunks`.
pub open spec fn opening(n: u32, chunks: Seq<Vec<u8>>) -> Seq<ReadEvent> {
    seq![ReadEvent::Signalled, ReadEvent::Available(n)] + receipts(chunks)
}

proof fn lemma_run_reading(pause_ms: u64, n: u32, chunks: Seq<Vec<u8>>)
    requires
        n > 0,
    ensures
        run(initial(pause_ms), opening(n, chunks)) == (CollectorView {
            phase: Phase::Reading,
            raw: joined(chunks),
            pause_ms,
        }),
    decreases chunks.len(),
{
    let evs = opening(n, chunks);
    if chunks.len() == 0 {
        assert(evs.drop_last() =~= seq![ReadEvent::Signalled]);
        assert(evs.drop_last().drop_last() =~= Seq::<ReadEvent>::empty());
        assert(run(initial(pause_ms), evs.drop_last().drop_last()) == initial(pause_ms));
        assert(evs.drop_last().last() == ReadEvent::Signalled);
        assert(evs.last() == ReadEvent::Available(n));
        assert(run(initial(pause_ms), evs.drop_last()).phase == Phase::Waiting);
        assert(joined(chunks) =~= Seq::<u8>::empty());
    } else {
        lemma_run_reading(pause_ms, n, chunks.drop_last());
        assert(evs.drop_last() =~= opening(n, chunks.drop_last()));
        assert(evs.last() == ReadEvent::Received(chunks.last()));
        assert(run(initial(pause_ms), evs).raw =~= joined(chunks));
    }
}

/// A timeout ends the reply: when the transport has bytes waiting, answers
/// one read with `chunk` and then times out, the collection is complete with
/// exactly the bytes of `chunk`, asks for no further read, and stays complete
/// whatever comes after.
pub proof fn lemma_timeout_completes(pause_ms: u64, n: u32, chunk: Vec<u8>)
    requires
        n > 0,
    ensures
        ({
            let before = run(initial(pause_ms), opening(n, seq![chunk]));
            let after = next_view(before, ReadEvent::TimedOut);
            &&& after == run(initial(pause_ms), opening(n, seq![chunk]).push(ReadEvent::TimedOut))
            &&& after.phase == Phase::Done
            &&& after.raw == chunk@
            &&& next_action(before, ReadEvent::TimedOut) == ReadAction::Finish
            &&& forall|e: ReadEvent| #[trigger] next_view(after, e) == after
        }),
{
    lemma_run_reading(pause_ms, n, seq![chunk]);
    let c = seq![chunk];
    assert(c.drop_last() =~= Seq::<Vec<u8>>::empty());
    assert(joined(c.drop_last()) =~= Seq::<u8>::empty());
    assert(joined(c) =~= chunk@);
    let evs = opening(n, c).push(ReadEvent::TimedOut);
    assert(evs.drop_last() =~= opening(n, c));
}

/// A transport error ends the collection: after any number of successful
/// reads, an error leaves it failed, with every byte read so far dropped, and
/// the action is to abort.
pub proof fn lemma_error_discards(pause_ms: u64, n: u32, chunks: Seq<Vec<u8>>)
    requires
        n > 0,
    ensures
        ({
            let before = run(initial(pause_ms), opening(n, chunks));
            let after = run(initial(pause_ms), opening(n, chunks).push(ReadEvent::Failed));
            &&& after.phase == Phase::Failed
            &&& after.raw == Seq::<u8>::empty()
            &&& next_action(before, ReadEvent::Failed) == ReadAction::Abort
        }),
{
    lemma_run_reading(pause_ms, n, chunks);
    let evs = opening(n, chunks).push(ReadEvent::Failed);
    assert(evs.drop_last() =~= opening(n, chunks));
}

} // verus!
