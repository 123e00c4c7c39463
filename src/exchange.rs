use vstd::prelude::*;

use crate::collect::{initial, next_action, next_view, CollectorView, Phase, ReadAction, ReadEvent, ReplyCollector};
use crate::reply::{lossy_text, normalize_reply, normalized};
use crate::send::SendStep;

verus! {

/// Where a request/reply exchange stands.
#[derive(Clone, Copy, PartialEq, Eq, Structural, Debug)]
pub enum Stage {
    /// Carrying out the steps that send the frame.
    Sending,
    /// Collecting the reply.
    Collecting,
    /// The reply is in.
    Finished,
    /// A transport error ended the exchange.
    Aborted,
}

/// What came of the last action.
#[derive(Clone, Debug, PartialEq, Eq)]
pub enum Outcome {
    /// The send step succeeded.
    Sent,
    /// The send step failed: the control line or the write reported an error.
    SendFailed,
    /// What the transport answered to a collection action.
    Read(ReadEvent),
}

/// What the caller is to do next.
#[derive(Clone, Debug, PartialEq, Eq)]
pub enum ExchangeAction {
    /// Carry out this send step.
    Send(SendStep),
    /// Carry out this collection action.
    Collect(ReadAction),
    /// Stop with success: the normalized reply, or nothing where the reply is
    /// dropped.
    Finish(Option<String>),
    /// Stop with the error that the last outcome reported.
    Abort,
}

/// The state of an exchange as a value: the send steps not yet handed out,
/// the stage, the collection, and whether the reply is kept.
pub struct ExchangeView {
    pub remaining: Seq<SendStep>,
    pub stage: Stage,
    pub collector: CollectorView,
    pub keep: bool,
}

/// The state after `outcome`. Finished and aborted exchanges stay as they are.
/// While sending, a success hands out the next step, or starts the collection
/// once every step has gone; anything else aborts. While collecting, a read
/// event moves the collection on, and the exchange ends with it; anything else
/// aborts.
pub open spec fn next_exchange(s: ExchangeView, outcome: Outcome) -> ExchangeView {
    match s.stage {
        Stage::Sending => match outcome {
            Outcome::Sent => if s.remaining.len() > 0 {
                ExchangeView { remaining: s.remaining.drop_first(), ..s }
            } else {
                ExchangeView { stage: Stage::Collecting, ..s }
            },
            _ => ExchangeView { stage: Stage::Aborted, ..s },
        },
        Stage::Collecting => match outcome {
            Outcome::Read(e) => {
                let c = next_view(s.collector, e);
                ExchangeView {
                    collector: c,
                    stage: if c.phase == Phase::Done {
                        Stage::Finished
                    } else if c.phase == Phase::Failed {
                        Stage::Aborted
                    } else {
                        Stage::Collecting
                    },
                    ..s
                }
            },
            _ => ExchangeView { stage: Stage::Aborted, ..s },
        },
        _ => s,
    }
}

/// The reply that a finished exchange hands back.
pub open spec fn finish_ok(s: ExchangeView, reply: Option<String>) -> bool {
    if s.keep {
        reply is Some && reply->0@ == normalized(lossy_text(s.collector.raw))
    } else {
        reply is None
    }
}

/// `a` is the action after `outcome`: the next send step, the first
/// collection action once the last send step succeeded, the collection's own
/// action after that, the reply at the end, or an abort.
pub open spec fn exchange_action(s: ExchangeView, outcome: Outcome, a: ExchangeAction) -> bool {
    let t = next_exchange(s, outcome);
    match t.stage {
        Stage::Sending => a == ExchangeAction::Send(s.remaining[0]),
        Stage::Collecting => a == ExchangeAction::Collect(
            if s.stage == Stage::Sending {
                ReadAction::RaiseSignal
            } else {
                next_action(s.collector, outcome->Read_0)
            },
        ),
        Stage::Finished => a is Finish && finish_ok(t, a->Finish_0),
        Stage::Aborted => a == ExchangeAction::Abort,
    }
}

/// One request and its reply: the steps of a send plan, then the collection
/// of the reply. Its caller carries out each action and hands back what came
/// of it, until `Finish` or `Abort`.
pub struct Exchange {
    remaining: Vec<SendStep>,
    stage: Stage,
    collector: ReplyCollector,
    keep: bool,
}

impl View for Exchange {
    type V = ExchangeView;

    closed spec fn view(&self) -> ExchangeView {
        ExchangeView {
            remaining: self.remaining@,
            stage: self.stage,
            collector: self.collector@,
            keep: self.keep,
        }
    }
}

impl Exchange {
    /// An exchange that sends `plan`, then collects the reply with pauses of
    /// `pause_ms`, and hands the normalized reply back if `keep`; and its first
    /// action, the plan's first step.
    pub fn start(plan: Vec<SendStep>, pause_ms: u64, keep: bool) -> (r: (Exchange, ExchangeAction))
        requires
            plan@.len() > 0,
        ensures
            r.1 == ExchangeAction::Send(plan@[0]),
            r.0@ == (ExchangeView {
                remaining: plan@.drop_first(),
                stage: Stage::Sending,
                collector: initial(pause_ms),
                keep,
            }),
    {
        let mut plan = plan;
        let first = plan.remove(0);
        let (collector, _) = ReplyCollector::start(pause_ms);
        let e = Exchange { remaining: plan, stage: Stage::Sending, collector, keep };
        (e, ExchangeAction::Send(first))
    }

    fn finish(&self) -> (a: ExchangeAction)
        ensures
            a is Finish && finish_ok(self@, a->Finish_0),
    {
        if self.keep {
            ExchangeAction::Finish(Some(normalize_reply(self.collector.raw())))
        } else {
            ExchangeAction::Finish(None)
        }
    }

    /// Takes in what came of the last action and says what to do next.
    pub fn step(&mut self, outcome: Outcome) -> (a: ExchangeAction)
        ensures
            final(self)@ == next_exchange(old(self)@, outcome),
            exchange_action(old(self)@, outcome, a),
    {
        match self.stage {
            Stage::Sending => match outcome {
                Outcome::Sent => {
                    if self.remaining.len() > 0 {
                        let s = self.remaining.remove(0);
                        assert(self.remaining@ =~= old(self).remaining@.drop_first());
                        ExchangeAction::Send(s)
                    } else {
                        self.stage = Stage::Collecting;
                        ExchangeAction::Collect(ReadAction::RaiseSignal)
                    }
                },
                _ => {
                    self.stage = Stage::Aborted;
                    ExchangeAction::Abort
                },
            },
            Stage::Collecting => match outcome {
                Outcome::Read(e) => {
                    let ra = self.collector.step(e);
                    let p = self.collector.phase();
                    if p == Phase::Done {
                        self.stage = Stage::Finished;
                        self.finish()
                    } else if p == Phase::Failed {
                        self.stage = Stage::Aborted;
                        ExchangeAction::Abort
                    } else {
                        ExchangeAction::Collect(ra)
                    }
                },
                _ => {
                    self.stage = Stage::Aborted;
                    ExchangeAction::Abort
                },
            },
            Stage::Finished => self.finish(),
            Stage::Aborted => ExchangeAction::Abort,
        }
    }

    /// Where the exchange stands.
    pub fn stage(&self) -> (r: Stage)
        ensures
            r == self@.stage,
    {
        self.stage
    }
}

/// An aborted exchange stays aborted: whatever comes after, it asks for
/// nothing but to abort.
pub proof fn lemma_abort_is_final(s: ExchangeView, outcome: Outcome, a: ExchangeAction)
    requires
        s.stage == Stage::Aborted,
    ensures
        next_exchange(s, outcome) == s,
        exchange_action(s, outcome, a) <==> a == ExchangeAction::Abort,
{
}

/// The send phase: a failed send step aborts the exchange at once, and the
/// collection begins only after the last step of the plan has succeeded.
pub proof fn lemma_send_phase(s: ExchangeView, outcome: Outcome, a: ExchangeAction)
    requires
        s.stage == Stage::Sending,
    ensures
        outcome == Outcome::SendFailed ==> next_exchange(s, outcome).stage == Stage::Aborted && (
        exchange_action(s, outcome, a) <==> a == ExchangeAction::Abort),
        next_exchange(s, outcome).stage == Stage::Collecting ==> outcome == Outcome::Sent
            && s.remaining.len() == 0,
        exchange_action(s, outcome, a) ==> !(a is Finish),
{
}

/// The collection phase: a transport error during the collection aborts the
/// exchange, and the exchange finishes exactly when the collection completes,
/// with the normalized reply where it is kept.
pub proof fn lemma_collect_phase(s: ExchangeView, outcome: Outcome, a: ExchangeAction)
    requires
        s.stage == Stage::Collecting,
        s.collector.phase != Phase::Done && s.collector.phase != Phase::Failed,
        exchange_action(s, outcome, a),
    ensures
        outcome == Outcome::Read(ReadEvent::Failed) ==> a == ExchangeAction::Abort,
        a is Finish <==> (outcome is Read && next_view(s.collector, outcome->Read_0).phase
            == Phase::Done),
        a is Collect ==> a->Collect_0 != ReadAction::Finish && a->Collect_0 != ReadAction::Abort,
        a is Finish && s.keep ==> a->Finish_0 is Some && a->Finish_0->0@ == normalized(
            lossy_text(next_view(s.collector, outcome->Read_0).raw),
        ),
{
}

} // verus!
