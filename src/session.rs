use vstd::prelude::*;
use vstd::utf8::encode_utf8;

use crate::collect::{initial, ReadAction, ReplyCollector};
use crate::exchange::{Exchange, ExchangeAction, Stage};
use crate::frame::{encode_frame, frame_text, texts};
use crate::send::{is_send_plan, send_plan};

verus! {

/// The arguments of a request; none given is none at all.
pub open spec fn arg_list(args: Option<Vec<String>>) -> Seq<String> {
    match args {
        Some(v) => v@,
        None => Seq::<String>::empty(),
    }
}

/// The bytes that go on the wire for `command` with `args`.
pub open spec fn request_bytes(command: Seq<char>, args: Seq<String>) -> Seq<u8> {
    encode_utf8(frame_text(command, texts(args)))
}

/// `r` is a new exchange with its first action: the first step of the plan
/// that sends `bytes` with the session's chunk size and pause, the rest of the
/// plan still to come, and a collection with the session's pause that has not
/// begun; the reply is handed back if `keep`.
pub open spec fn starts_exchange(r: (Exchange, ExchangeAction), bytes: Seq<u8>, focus: &Focus, keep: bool) -> bool {
    &&& r.1 is Send
    &&& is_send_plan(
        seq![r.1->Send_0] + r.0@.remaining,
        bytes,
        focus.spec_chunk_size() as nat,
        focus.spec_write_delay(),
    )
    &&& r.0@.stage == Stage::Sending
    &&& r.0@.collector == initial(focus.spec_write_delay())
    &&& r.0@.keep == keep
}

/// A Focus session's settings: how many bytes go out in one write, and how
/// long to wait after each write and between polls and reads of a reply.
pub struct Focus {
    chunk_size: usize,
    write_delay: u64,
}

impl Focus {
    /// The number of bytes in one write.
    pub closed spec fn spec_chunk_size(&self) -> usize {
        self.chunk_size
    }

    /// The pause, in milliseconds, after each write and between polls and reads.
    pub closed spec fn spec_write_delay(&self) -> u64 {
        self.write_delay
    }

    /// The settings are usable: a write carries at least one byte.
    pub open spec fn wf(&self) -> bool {
        self.spec_chunk_size() > 0
    }

    /// A session with writes of 32 bytes and pauses of 500 ms.
    pub fn new() -> (r: Focus)
        ensures
            r.wf(),
            r.spec_chunk_size() == 32,
            r.spec_write_delay() == 500,
    {
        Focus { chunk_size: 32, write_delay: 500 }
    }

    /// Sets the number of bytes in one write.
    pub fn chunk_size(&mut self, chunk_size: usize) -> (r: &Self)
        ensures
            final(self).wf() == (chunk_size > 0),
            final(self).spec_chunk_size() == chunk_size,
            final(self).spec_write_delay() == old(self).spec_write_delay(),
            *r == *final(self),
    {
        self.chunk_size = chunk_size;
        self
    }

    /// Sets the pause after each write and between polls and reads.
    pub fn write_delay(&mut self, write_delay: u64) -> (r: &Self)
        ensures
            final(self).wf() == old(self).wf(),
            final(self).spec_write_delay() == write_delay,
            final(self).spec_chunk_size() == old(self).spec_chunk_size(),
            *r == *final(self),
    {
        self.write_delay = write_delay;
        self
    }

    /// An exchange that sends an empty command, which clears what the device
    /// still had pending, then collects the reply and drops it; and its first
    /// action.
    pub fn flush(&self) -> (r: (Exchange, ExchangeAction))
        requires
            self.wf(),
        ensures
            starts_exchange(r, request_bytes(seq![' '], Seq::<String>::empty()), self, false),
    {
        let command = " ".to_owned();
        proof {
            reveal_strlit(" ");
            assert(command@ =~= seq![' ']);
        }
        self.exchange(command, None, false)
    }

    /// An exchange that sends `command` with `args`, then collects the reply
    /// and hands it back normalized; and its first action.
    pub fn request(&self, command: String, args: Option<Vec<String>>) -> (r: (Exchange, ExchangeAction))
        requires
            self.wf(),
        ensures
            starts_exchange(r, request_bytes(command@, arg_list(args)), self, true),
    {
        self.request_with_progress(command, args)
    }

    /// As `request`. Its send steps report the frame's length first and each
    /// chunk's length before the chunk goes out, for a progress display; the
    /// collection reports nothing.
    pub fn request_with_progress(&self, command: String, args: Option<Vec<String>>) -> (r: (
        Exchange,
        ExchangeAction,
    ))
        requires
            self.wf(),
        ensures
            starts_exchange(r, request_bytes(command@, arg_list(args)), self, true),
    {
        self.exchange(command, args, true)
    }

    fn exchange(&self, command: String, args: Option<Vec<String>>, keep: bool) -> (r: (
        Exchange,
        ExchangeAction,
    ))
        requires
            self.wf(),
        ensures
            starts_exchange(r, request_bytes(command@, arg_list(args)), self, keep),
    {
        let args = match args {
            Some(v) => v,
            None => Vec::new(),
        };
        let frame = encode_frame(&command, &args);
        let bytes = frame.as_str().as_bytes();
        let plan = send_plan(bytes, self.chunk_size, self.write_delay);
        let ghost p = plan@;
        let r = Exchange::start(plan, self.write_delay, keep);
        assert(seq![p[0]] + p.drop_first() =~= p);
        r
    }

    /// A collection of the reply, with this session's pause between polls
    /// and reads, and its first action.
    pub fn read_reply(&self) -> (r: (ReplyCollector, ReadAction))
        ensures
            r.0@ == initial(self.spec_write_delay()),
            r.1 == ReadAction::RaiseSignal,
    {
        ReplyCollector::start(self.write_delay)
    }
}

} // verus!
