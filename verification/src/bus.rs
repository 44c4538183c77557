//! The boundary between the engine and the bus.
//!
//! The engine names an [`Action`]; whoever owns the SPI device, the
//! chip-select pin and the timer performs it and hands back a [`Reply`].
//! A [`Run`] is the mathematical account of such a conversation: given the
//! replies that the bus will give, in order, it lists the actions that are
//! issued and, if the replies suffice to get there, the value reached and
//! the replies left over.

use vstd::prelude::*;

verus! {

/// What the engine asks of the bus.
#[derive(Debug)]
pub enum Action {
    /// Drive chip-select high (card deselected).
    CsHigh,
    /// Drive chip-select low (card selected).
    CsLow,
    /// Clock out one byte and report the byte clocked in meanwhile.
    Transfer(u8),
    /// Clock out these bytes and ignore what is clocked in.
    Write(Vec<u8>),
    /// Clock out this many `0xFF` bytes and report the bytes clocked in.
    Read(usize),
    /// Wait for at least this many microseconds.
    DelayUs(u32),
}

/// An [`Action`] as a mathematical value.
pub enum ActionSpec {
    CsHigh,
    CsLow,
    Transfer(u8),
    Write(Seq<u8>),
    Read(nat),
    DelayUs(u32),
}

impl View for Action {
    type V = ActionSpec;

    open spec fn view(&self) -> ActionSpec {
        match self {
            Action::CsHigh => ActionSpec::CsHigh,
            Action::CsLow => ActionSpec::CsLow,
            Action::Transfer(out) => ActionSpec::Transfer(*out),
            Action::Write(bytes) => ActionSpec::Write(bytes@),
            Action::Read(len) => ActionSpec::Read(*len as nat),
            Action::DelayUs(us) => ActionSpec::DelayUs(*us),
        }
    }
}

/// What the bus reports back after an [`Action`].
///
/// A reply of a kind that does not fit the action counts as a failure of
/// that action: anything but [`Reply::Done`] after a change of chip-select
/// or a write, anything but [`Reply::Byte`] after a transfer, anything but
/// [`Reply::Bytes`] of the length asked for after a read. A pause cannot
/// fail: whatever is reported after it, the engine goes on.
#[derive(Debug)]
pub enum Reply {
    /// The action was carried out and has nothing to report.
    Done,
    /// The byte received during a [`Action::Transfer`].
    Byte(u8),
    /// The bytes received during a [`Action::Read`].
    Bytes(Vec<u8>),
    /// The pin or the SPI peripheral reported an error.
    Failed,
}

/// A [`Reply`] as a mathematical value.
pub enum ReplySpec {
    Done,
    Byte(u8),
    Bytes(Seq<u8>),
    Failed,
}

impl View for Reply {
    type V = ReplySpec;

    open spec fn view(&self) -> ReplySpec {
        match self {
            Reply::Done => ReplySpec::Done,
            Reply::Byte(b) => ReplySpec::Byte(*b),
            Reply::Bytes(bytes) => ReplySpec::Bytes(bytes@),
            Reply::Failed => ReplySpec::Failed,
        }
    }
}

/// The outcome of resuming a machine of type `M` that yields a `T`: either
/// the machine in its next state together with the action it now waits
/// for, or the value it has reached.
pub enum Next<M, T> {
    /// The machine as it is now, and the action that it waits for.
    Need(M, Action),
    /// The value that the machine has reached.
    Done(T),
}

/// A conversation with the bus, told from the engine's side.
#[verifier::ext_equal]
pub struct Run<T> {
    /// The actions issued, in order. The last one is still unanswered when
    /// `end` is `None`.
    pub sent: Seq<ActionSpec>,
    /// The value reached and the replies not consumed, if the replies
    /// sufficed.
    pub end: Option<(T, Seq<ReplySpec>)>,
}

impl<T> Run<T> {
    /// The conversation that reaches `value` without issuing anything.
    pub open spec fn done(value: T, replies: Seq<ReplySpec>) -> Run<T> {
        Run { sent: Seq::empty(), end: Some((value, replies)) }
    }

    /// The conversation that issues `action` and, once `replies` holds an
    /// answer to it, goes on as `next`. The caller computes `next` from
    /// `replies.first()` and `replies.drop_first()`.
    pub open spec fn ask(action: ActionSpec, replies: Seq<ReplySpec>, next: Run<T>) -> Run<T> {
        if replies.len() == 0 {
            Run { sent: seq![action], end: None }
        } else {
            Run { sent: seq![action] + next.sent, end: next.end }
        }
    }

    /// This conversation and, if it comes to an end, `next` after it. The
    /// caller computes `next` from `self.value()` and `self.tail()`.
    pub open spec fn followed_by<U>(self, next: Run<U>) -> Run<U> {
        match self.end {
            None => Run { sent: self.sent, end: None },
            Some(_) => Run { sent: self.sent + next.sent, end: next.end },
        }
    }

    /// Whether the conversation keeps pace with `replies` and is over
    /// within `most` actions: it issues at most `most` actions; if it comes
    /// to an end, it has taken one reply for each action and leaves the
    /// others; if it does not, the replies have run out on its last action.
    pub open spec fn paced(self, replies: Seq<ReplySpec>, most: nat) -> bool {
        &&& self.sent.len() <= most
        &&& match self.end {
            Some((_, tail)) => self.sent.len() <= replies.len() && tail == replies.skip(
                self.sent.len() as int,
            ),
            None => self.sent.len() == replies.len() + 1,
        }
    }

    /// The value reached.
    pub open spec fn value(self) -> T
        recommends
            self.end is Some,
    {
        self.end.unwrap().0
    }

    /// The replies left over.
    pub open spec fn tail(self) -> Seq<ReplySpec>
        recommends
            self.end is Some,
    {
        self.end.unwrap().1
    }
}

/// Issuing an action first commutes with sequencing.
pub broadcast proof fn lemma_ask_followed<T, U>(
    action: ActionSpec,
    replies: Seq<ReplySpec>,
    first: Run<T>,
    next: Run<U>,
)
    ensures
        #[trigger] Run::ask(action, replies, first).followed_by(next) == Run::ask(
            action,
            replies,
            first.followed_by(next),
        ),
{
    let a = Run::ask(action, replies, first).followed_by(next);
    let b = Run::ask(action, replies, first.followed_by(next));
    assert(a.sent =~= b.sent);
}

/// Sequencing after a finished conversation that issued nothing is the
/// second conversation.
pub broadcast proof fn lemma_done_followed<T, U>(value: T, replies: Seq<ReplySpec>, next: Run<U>)
    ensures
        #[trigger] Run::done(value, replies).followed_by(next) == next,
{
    assert(Run::done(value, replies).followed_by(next).sent =~= next.sent);
}

/// A conversation that reaches its value at once keeps pace.
pub proof fn lemma_done_paced<T>(value: T, replies: Seq<ReplySpec>, most: nat)
    ensures
        Run::done(value, replies).paced(replies, most),
{
    assert(replies.skip(0) =~= replies);
}

/// A conversation that keeps pace within a bound does so within any larger
/// one, and ends if there are that many replies.
pub proof fn lemma_paced_more<T>(run: Run<T>, replies: Seq<ReplySpec>, most: nat, more: nat)
    requires
        run.paced(replies, most),
        most <= more,
    ensures
        run.paced(replies, more),
        replies.len() >= most ==> run.end is Some,
{
}

/// Issuing one action before a conversation that keeps pace makes one that
/// keeps pace.
pub proof fn lemma_ask_paced<T>(
    action: ActionSpec,
    replies: Seq<ReplySpec>,
    next: Run<T>,
    most: nat,
)
    requires
        replies.len() > 0 ==> next.paced(replies.drop_first(), most),
    ensures
        Run::ask(action, replies, next).paced(replies, most + 1),
{
    if replies.len() > 0 {
        let run = Run::ask(action, replies, next);
        match next.end {
            Some((_, tail)) => {
                assert(replies.drop_first().skip(next.sent.len() as int) =~= replies.skip(
                    run.sent.len() as int,
                ));
            },
            None => {},
        }
    }
}

/// Two conversations that keep pace, one after the other, make one that
/// keeps pace.
pub proof fn lemma_followed_paced<T, U>(
    first: Run<T>,
    next: Run<U>,
    replies: Seq<ReplySpec>,
    most: nat,
    more: nat,
)
    requires
        first.paced(replies, most),
        first.end is Some ==> next.paced(first.tail(), more),
    ensures
        first.followed_by(next).paced(replies, most + more),
{
    let run = first.followed_by(next);
    match first.end {
        Some((_, between)) => match next.end {
            Some((_, tail)) => {
                assert(between.skip(next.sent.len() as int) =~= replies.skip(
                    run.sent.len() as int,
                ));
            },
            None => {},
        },
        None => {},
    }
}

pub broadcast group group_run {
    lemma_ask_followed,
    lemma_done_followed,
}

} // verus!
