//! Polling the bus for a byte, within a retry budget.

use crate::bus::{Action, ActionSpec, Next, Reply, ReplySpec, Run};
use crate::delay::{Delay, TICK_US};
use crate::types::Error;
use vstd::prelude::*;

verus! {

/// What a poll waits for.
#[derive(Debug, Copy, Clone, PartialEq, Eq, Structural)]
pub enum Until {
    /// The card releases the bus: `0xFF`.
    Idle,
    /// A command response: a byte with the most significant bit clear.
    Response,
    /// A token: anything but `0xFF`.
    Token,
}

impl Until {
    /// Whether `byte` ends the poll.
    pub open spec fn hit(self, byte: u8) -> bool {
        match self {
            Until::Idle => byte == 0xFF,
            Until::Response => byte < 0x80,
            Until::Token => byte != 0xFF,
        }
    }

    /// Whether `byte` ends the poll.
    pub fn accepts(self, byte: u8) -> (hit: bool)
        ensures
            hit == self.hit(byte),
    {
        match self {
            Until::Idle => byte == 0xFF,
            Until::Response => byte < 0x80,
            Until::Token => byte != 0xFF,
        }
    }
}

/// A poll with `left` retries: read a byte; if it is the one waited for,
/// yield it; otherwise spend a retry, pause and read again. Without a retry
/// to spend the poll ends with `timeout`; a failed transfer ends it with
/// [`Error::Transport`].
pub open spec fn poll_run(until: Until, left: nat, timeout: Error, replies: Seq<ReplySpec>) -> Run<
    Result<u8, Error>,
>
    decreases left, 1nat,
{
    Run::ask(
        ActionSpec::Transfer(0xFF),
        replies,
        poll_byte(until, left, timeout, replies.first(), replies.drop_first()),
    )
}

/// The rest of a poll once the transfer has been answered with `reply`.
pub open spec fn poll_byte(
    until: Until,
    left: nat,
    timeout: Error,
    reply: ReplySpec,
    replies: Seq<ReplySpec>,
) -> Run<Result<u8, Error>>
    decreases left, 0nat,
{
    match reply {
        ReplySpec::Byte(byte) => if until.hit(byte) {
            Run::done(Ok(byte), replies)
        } else if left == 0 {
            Run::done(Err(timeout), replies)
        } else {
            Run::ask(
                ActionSpec::DelayUs(TICK_US),
                replies,
                poll_run(until, (left - 1) as nat, timeout, replies.drop_first()),
            )
        },
        _ => Run::done(Err(Error::Transport), replies),
    }
}

/// A poll in progress.
#[derive(Debug)]
pub struct Poll {
    until: Until,
    delay: Delay,
    timeout: Error,
    pausing: bool,
}

impl Poll {
    /// What the poll does once the pending action is answered with `reply`
    /// and `replies` follow.
    pub closed spec fn on(self, reply: ReplySpec, replies: Seq<ReplySpec>) -> Run<
        Result<u8, Error>,
    > {
        if self.pausing {
            poll_run(self.until, self.delay.remaining(), self.timeout, replies)
        } else {
            poll_byte(self.until, self.delay.remaining(), self.timeout, reply, replies)
        }
    }

    /// Starts a poll.
    pub fn start(until: Until, delay: Delay, timeout: Error) -> (out: (Poll, Action))
        ensures
            forall|replies: Seq<ReplySpec>|
                #[trigger] poll_run(until, delay.remaining(), timeout, replies) == Run::ask(
                    out.1@,
                    replies,
                    out.0.on(replies.first(), replies.drop_first()),
                ),
    {
        (Poll { until, delay, timeout, pausing: false }, Action::Transfer(0xFF))
    }

    /// Resumes the poll with the reply to its pending action.
    pub fn step(self, reply: Reply) -> (out: Next<Poll, Result<u8, Error>>)
        ensures
            match out {
                Next::Need(poll, action) => forall|replies: Seq<ReplySpec>|
                    #[trigger] self.on(reply@, replies) == Run::ask(
                        action@,
                        replies,
                        poll.on(replies.first(), replies.drop_first()),
                    ),
                Next::Done(value) => forall|replies: Seq<ReplySpec>|
                    #[trigger] self.on(reply@, replies) == Run::done(value, replies),
            },
    {
        let mut poll = self;
        if poll.pausing {
            poll.pausing = false;
            Next::Need(poll, Action::Transfer(0xFF))
        } else {
            match reply {
                Reply::Byte(byte) => {
                    if poll.until.accepts(byte) {
                        Next::Done(Ok(byte))
                    } else {
                        match poll.delay.delay(poll.timeout) {
                            Err(e) => Next::Done(Err(e)),
                            Ok(()) => {
                                poll.pausing = true;
                                Next::Need(poll, Action::DelayUs(TICK_US))
                            },
                        }
                    }
                },
                _ => Next::Done(Err(Error::Transport)),
            }
        }
    }
}

} // verus!
