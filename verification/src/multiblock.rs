//! Multiple-block sessions: a transfer that is opened, fed block by block
//! and closed, each by a call of its own.

use crate::bus::{group_run, Reply, ReplySpec, Run};
use crate::inner::{end_read_run, end_write_run, read_data_op_run, write_inner_block_run};
use crate::outcome::{outcome_view, Step};
use crate::sdcard::{knowing, lazy_run, RequestSpec, SdCard, Settled};
use crate::types::{AcquireOpts, BlockIdx, CardType, Error};
use vstd::prelude::*;

verus! {

broadcast use group_run;

/// Where a session stands between operations.
#[derive(Debug, Copy, Clone, PartialEq, Eq, Structural)]
pub enum State {
    /// No transfer is open.
    Init,
    /// A multiple-block read is open.
    Read,
    /// A multiple-block write is open.
    Write,
}

/// Opening a multiple-block read at the block `start`. Only a session with
/// no transfer open can open one. The card is acquired first if it is not
/// known.
pub open spec fn session_prepare_read_run(
    state: State,
    card: Option<CardType>,
    opts: AcquireOpts,
    start: u32,
    replies: Seq<ReplySpec>,
) -> Run<Settled> {
    if state != State::Init {
        Run::done((Err(Error::BadState), card), replies)
    } else {
        lazy_run(card, opts, RequestSpec::PrepareRead { start }, replies)
    }
}

/// Opening a multiple-block write of `len` blocks at the block `start`.
/// Only a session with no transfer open can open one. The card is acquired
/// first if it is not known.
pub open spec fn session_prepare_write_run(
    state: State,
    card: Option<CardType>,
    opts: AcquireOpts,
    start: u32,
    len: u32,
    replies: Seq<ReplySpec>,
) -> Run<Settled> {
    if state != State::Init {
        Run::done((Err(Error::BadState), card), replies)
    } else {
        lazy_run(card, opts, RequestSpec::PrepareWrite { start, len }, replies)
    }
}

/// Reading the next packet of `len` bytes. Only an open read can be read
/// from. A packet that fails closes the read.
pub open spec fn session_read_run(
    state: State,
    card: Option<CardType>,
    use_crc: bool,
    len: nat,
    replies: Seq<ReplySpec>,
) -> Run<Settled> {
    if state != State::Read {
        Run::done((Err(Error::BadState), card), replies)
    } else {
        guarded(use_crc, true, knowing(read_data_op_run(len, use_crc, replies), card))
    }
}

/// Writing the next block. Only an open write can be written to. A block
/// that fails closes the write.
pub open spec fn session_write_run(
    state: State,
    card: Option<CardType>,
    use_crc: bool,
    block: Seq<u8>,
    replies: Seq<ReplySpec>,
) -> Run<Settled> {
    if state != State::Write {
        Run::done((Err(Error::BadState), card), replies)
    } else {
        guarded(use_crc, false, knowing(write_inner_block_run(block, use_crc, replies), card))
    }
}

/// Closing the open read. Only an open read can be closed.
pub open spec fn session_stop_read_run(
    state: State,
    card: Option<CardType>,
    use_crc: bool,
    replies: Seq<ReplySpec>,
) -> Run<Settled> {
    if state != State::Read {
        Run::done((Err(Error::BadState), card), replies)
    } else {
        knowing(end_read_run(use_crc, replies), card)
    }
}

/// Closing the open write. Only an open write can be closed.
pub open spec fn session_stop_write_run(
    state: State,
    card: Option<CardType>,
    use_crc: bool,
    replies: Seq<ReplySpec>,
) -> Run<Settled> {
    if state != State::Write {
        Run::done((Err(Error::BadState), card), replies)
    } else {
        knowing(end_write_run(use_crc, replies), card)
    }
}

/// A packet or block of an open transfer, and the closing of the transfer
/// if it failed.
pub open spec fn guarded(use_crc: bool, reading: bool, data: Run<Settled>) -> Run<Settled> {
    data.followed_by(
        match data.value().0 {
            Ok(_) => Run::done(data.value(), data.tail()),
            Err(e) => stopped(
                e,
                knowing(
                    if reading {
                        end_read_run(use_crc, data.tail())
                    } else {
                        end_write_run(use_crc, data.tail())
                    },
                    data.value().1,
                ),
            ),
        },
    )
}

/// The closing of a transfer after the failure `e`, and the error that the
/// caller sees: that of the closing if it failed too, else `e`.
pub open spec fn stopped(e: Error, stop: Run<Settled>) -> Run<Settled> {
    stop.followed_by(
        Run::done(
            (
                match stop.value().0 {
                    Err(late) => Err(late),
                    Ok(_) => Err(e),
                },
                stop.value().1,
            ),
            stop.tail(),
        ),
    )
}

#[derive(Debug, Copy, Clone)]
enum Job {
    Idle,
    Preparing(State),
    Data(bool),
    Stopping,
    Failing(bool, Error),
}

/// A card together with the state of a multiple-block session on it.
///
/// A session that has opened a transfer must close it with
/// [`SdCardMultiBlockWriteRead::stop_read`] or
/// [`SdCardMultiBlockWriteRead::stop_write`] before it is dropped: until
/// then the card stays selected and waits for the rest of the transfer.
#[derive(Debug)]
pub struct SdCardMultiBlockWriteRead {
    sd_card: SdCard,
    state: State,
    job: Job,
}

impl SdCardMultiBlockWriteRead {
    /// The card.
    pub closed spec fn card(self) -> SdCard {
        self.sd_card
    }

    /// Where the session stands.
    pub closed spec fn state(self) -> State {
        self.state
    }

    /// Whether an operation is under way.
    pub closed spec fn busy(self) -> bool {
        !(self.job is Idle)
    }

    /// Where the session stands once the operation under way has ended
    /// well.
    pub closed spec fn target(self) -> State {
        match self.job {
            Job::Idle => self.state,
            Job::Preparing(target) => target,
            Job::Data(_) => self.state,
            Job::Stopping => State::Init,
            Job::Failing(reading, _) => if reading {
                State::Read
            } else {
                State::Write
            },
        }
    }

    /// Whether the card and the session agree on what is under way.
    pub closed spec fn wf(self) -> bool {
        &&& self.sd_card.wf()
        &&& self.sd_card.busy() == self.busy()
        &&& self.job is Preparing ==> self.state == State::Init
        &&& self.job matches Job::Data(reading) ==> self.state == if reading {
            State::Read
        } else {
            State::Write
        }
        &&& self.job is Failing ==> self.state == State::Init
    }

    /// What the operation under way does once the pending action is
    /// answered with `reply` and `replies` follow.
    pub closed spec fn on(self, reply: ReplySpec, replies: Seq<ReplySpec>) -> Run<Settled> {
        match self.job {
            Job::Data(reading) => guarded(
                self.sd_card.opts().use_crc,
                reading,
                self.sd_card.on(reply, replies),
            ),
            Job::Failing(_, e) => stopped(e, self.sd_card.on(reply, replies)),
            _ => self.sd_card.on(reply, replies),
        }
    }

    /// A session on `sd_card`, with no transfer open.
    pub fn new(sd_card: SdCard) -> (session: SdCardMultiBlockWriteRead)
        requires
            sd_card.wf(),
            !sd_card.busy(),
        ensures
            session.card() == sd_card,
            session.state() == State::Init,
            !session.busy(),
            session.wf(),
    {
        SdCardMultiBlockWriteRead { sd_card, state: State::Init, job: Job::Idle }
    }

    /// The card.
    pub fn sd_card(&self) -> (card: &SdCard)
        ensures
            *card == self.card(),
    {
        &self.sd_card
    }

    /// Gives the card back. A transfer that is open stays open.
    pub fn into_inner(self) -> (card: SdCard)
        ensures
            card == self.card(),
    {
        self.sd_card
    }

    /// Where the session stands.
    pub fn current_state(&self) -> (state: State)
        ensures
            state == self.state(),
    {
        self.state
    }

    /// Whether an operation is under way.
    pub fn is_busy(&self) -> (busy: bool)
        ensures
            busy == self.busy(),
    {
        match self.job {
            Job::Idle => false,
            _ => true,
        }
    }

    /// Gives up the operation under way, if there is one, and whatever
    /// transfer is open. Nothing is sent: chip-select and the card are left
    /// as the last action left them, so a transfer that was open on the
    /// card is cut short there by the next acquisition, not closed.
    pub fn abandon(&mut self)
        ensures
            !final(self).busy(),
            final(self).wf(),
            final(self).state() == State::Init,
            final(self).card().card() == old(self).card().card(),
            final(self).card().opts() == old(self).card().opts(),
    {
        self.sd_card.abandon();
        self.job = Job::Idle;
        self.state = State::Init;
    }

    /// Starts the opening of a multiple-block read at the block
    /// `start_block_idx`.
    pub fn prepare_read(&mut self, start_block_idx: BlockIdx) -> (out: Step)
        requires
            !old(self).busy(),
            old(self).wf(),
        ensures
            final(self).wf(),
            final(self).state() == old(self).state(),
            final(self).card().opts() == old(self).card().opts(),
            match out {
                Step::Need(action) => final(self).busy() && final(self).target() == State::Read
                    && forall|replies: Seq<ReplySpec>|
                    #[trigger] session_prepare_read_run(
                        old(self).state(),
                        old(self).card().card(),
                        old(self).card().opts(),
                        start_block_idx.0,
                        replies,
                    ) == Run::ask(
                        action@,
                        replies,
                        final(self).on(replies.first(), replies.drop_first()),
                    ),
                Step::Done(value) => !final(self).busy() && forall|replies: Seq<ReplySpec>|
                    #[trigger] session_prepare_read_run(
                        old(self).state(),
                        old(self).card().card(),
                        old(self).card().opts(),
                        start_block_idx.0,
                        replies,
                    ) == Run::done((outcome_view(value), final(self).card().card()), replies),
            },
    {
        if self.state != State::Init {
            return Step::Done(Err(Error::BadState));
        }
        match self.sd_card.prepare_read(start_block_idx) {
            Step::Need(action) => {
                self.job = Job::Preparing(State::Read);
                Step::Need(action)
            },
            Step::Done(value) => Step::Done(value),
        }
    }

    /// Starts the opening of a multiple-block write of `blocks_length`
    /// blocks at the block `start_block_idx`.
    pub fn prepare_write(&mut self, start_block_idx: BlockIdx, blocks_length: u32) -> (out: Step)
        requires
            !old(self).busy(),
            old(self).wf(),
        ensures
            final(self).wf(),
            final(self).state() == old(self).state(),
            final(self).card().opts() == old(self).card().opts(),
            match out {
                Step::Need(action) => final(self).busy() && final(self).target() == State::Write
                    && forall|replies: Seq<ReplySpec>|
                    #[trigger] session_prepare_write_run(
                        old(self).state(),
                        old(self).card().card(),
                        old(self).card().opts(),
                        start_block_idx.0,
                        blocks_length,
                        replies,
                    ) == Run::ask(
                        action@,
                        replies,
                        final(self).on(replies.first(), replies.drop_first()),
                    ),
                Step::Done(value) => !final(self).busy() && forall|replies: Seq<ReplySpec>|
                    #[trigger] session_prepare_write_run(
                        old(self).state(),
                        old(self).card().card(),
                        old(self).card().opts(),
                        start_block_idx.0,
                        blocks_length,
                        replies,
                    ) == Run::done((outcome_view(value), final(self).card().card()), replies),
            },
    {
        if self.state != State::Init {
            return Step::Done(Err(Error::BadState));
        }
        match self.sd_card.prepare_write(start_block_idx, blocks_length) {
            Step::Need(action) => {
                self.job = Job::Preparing(State::Write);
                Step::Need(action)
            },
            Step::Done(value) => Step::Done(value),
        }
    }

    /// Starts reading the next packet of `len` bytes. The payload comes
    /// back in [`crate::outcome::Output::Payload`].
    pub fn read(&mut self, len: usize) -> (out: Step)
        requires
            !old(self).busy(),
            old(self).wf(),
        ensures
            final(self).wf(),
            final(self).state() == old(self).state(),
            final(self).card().opts() == old(self).card().opts(),
            match out {
                Step::Need(action) => final(self).busy() && final(self).target() == State::Read
                    && forall|replies: Seq<ReplySpec>|
                    #[trigger] session_read_run(
                        old(self).state(),
                        old(self).card().card(),
                        old(self).card().opts().use_crc,
                        len as nat,
                        replies,
                    ) == Run::ask(
                        action@,
                        replies,
                        final(self).on(replies.first(), replies.drop_first()),
                    ),
                Step::Done(value) => !final(self).busy() && forall|replies: Seq<ReplySpec>|
                    #[trigger] session_read_run(
                        old(self).state(),
                        old(self).card().card(),
                        old(self).card().opts().use_crc,
                        len as nat,
                        replies,
                    ) == Run::done((outcome_view(value), final(self).card().card()), replies),
            },
    {
        if self.state != State::Read {
            return Step::Done(Err(Error::BadState));
        }
        match self.sd_card.read_data(len) {
            Step::Need(action) => {
                self.job = Job::Data(true);
                Step::Need(action)
            },
            Step::Done(value) => Step::Done(value),
        }
    }

    /// Starts writing the next block.
    pub fn write(&mut self, block: Vec<u8>) -> (out: Step)
        requires
            !old(self).busy(),
            old(self).wf(),
        ensures
            final(self).wf(),
            final(self).state() == old(self).state(),
            final(self).card().opts() == old(self).card().opts(),
            match out {
                Step::Need(action) => final(self).busy() && final(self).target() == State::Write
                    && forall|replies: Seq<ReplySpec>|
                    #[trigger] session_write_run(
                        old(self).state(),
                        old(self).card().card(),
                        old(self).card().opts().use_crc,
                        block@,
                        replies,
                    ) == Run::ask(
                        action@,
                        replies,
                        final(self).on(replies.first(), replies.drop_first()),
                    ),
                Step::Done(value) => !final(self).busy() && forall|replies: Seq<ReplySpec>|
                    #[trigger] session_write_run(
                        old(self).state(),
                        old(self).card().card(),
                        old(self).card().opts().use_crc,
                        block@,
                        replies,
                    ) == Run::done((outcome_view(value), final(self).card().card()), replies),
            },
    {
        if self.state != State::Write {
            return Step::Done(Err(Error::BadState));
        }
        match self.sd_card.write_inner_block(block) {
            Step::Need(action) => {
                self.job = Job::Data(false);
                Step::Need(action)
            },
            Step::Done(value) => Step::Done(value),
        }
    }

    /// Starts the closing of the open read.
    pub fn stop_read(&mut self) -> (out: Step)
        requires
            !old(self).busy(),
            old(self).wf(),
        ensures
            final(self).wf(),
            final(self).state() == old(self).state(),
            final(self).card().opts() == old(self).card().opts(),
            match out {
                Step::Need(action) => final(self).busy() && final(self).target() == State::Init
                    && forall|replies: Seq<ReplySpec>|
                    #[trigger] session_stop_read_run(
                        old(self).state(),
                        old(self).card().card(),
                        old(self).card().opts().use_crc,
                        replies,
                    ) == Run::ask(
                        action@,
                        replies,
                        final(self).on(replies.first(), replies.drop_first()),
                    ),
                Step::Done(value) => !final(self).busy() && forall|replies: Seq<ReplySpec>|
                    #[trigger] session_stop_read_run(
                        old(self).state(),
                        old(self).card().card(),
                        old(self).card().opts().use_crc,
                        replies,
                    ) == Run::done((outcome_view(value), final(self).card().card()), replies),
            },
    {
        if self.state != State::Read {
            return Step::Done(Err(Error::BadState));
        }
        match self.sd_card.end_read() {
            Step::Need(action) => {
                self.job = Job::Stopping;
                Step::Need(action)
            },
            Step::Done(value) => Step::Done(value),
        }
    }

    /// Starts the closing of the open write.
    pub fn stop_write(&mut self) -> (out: Step)
        requires
            !old(self).busy(),
            old(self).wf(),
        ensures
            final(self).wf(),
            final(self).state() == old(self).state(),
            final(self).card().opts() == old(self).card().opts(),
            match out {
                Step::Need(action) => final(self).busy() && final(self).target() == State::Init
                    && forall|replies: Seq<ReplySpec>|
                    #[trigger] session_stop_write_run(
                        old(self).state(),
                        old(self).card().card(),
                        old(self).card().opts().use_crc,
                        replies,
                    ) == Run::ask(
                        action@,
                        replies,
                        final(self).on(replies.first(), replies.drop_first()),
                    ),
                Step::Done(value) => !final(self).busy() && forall|replies: Seq<ReplySpec>|
                    #[trigger] session_stop_write_run(
                        old(self).state(),
                        old(self).card().card(),
                        old(self).card().opts().use_crc,
                        replies,
                    ) == Run::done((outcome_view(value), final(self).card().card()), replies),
            },
    {
        if self.state != State::Write {
            return Step::Done(Err(Error::BadState));
        }
        match self.sd_card.end_write() {
            Step::Need(action) => {
                self.job = Job::Stopping;
                Step::Need(action)
            },
            Step::Done(value) => Step::Done(value),
        }
    }

    /// Resumes the operation under way with the reply to its pending
    /// action. An operation that ends well leaves the session where it was
    /// heading; one that fails leaves no transfer open.
    pub fn advance(&mut self, reply: Reply) -> (out: Step)
        requires
            old(self).busy(),
            old(self).wf(),
        ensures
            final(self).wf(),
            old(self).card().card() is Some ==> final(self).card().card() == old(
                self,
            ).card().card(),
            final(self).card().opts() == old(self).card().opts(),
            match out {
                Step::Need(action) => final(self).busy() && final(self).target() == old(
                    self,
                ).target() && forall|replies: Seq<ReplySpec>|
                    #[trigger] old(self).on(reply@, replies) == Run::ask(
                        action@,
                        replies,
                        final(self).on(replies.first(), replies.drop_first()),
                    ),
                Step::Done(value) => !final(self).busy() && final(self).state() == (if value is Ok {
                    old(self).target()
                } else {
                    State::Init
                }) && forall|replies: Seq<ReplySpec>|
                    #[trigger] old(self).on(reply@, replies) == Run::done(
                        (outcome_view(value), final(self).card().card()),
                        replies,
                    ),
            },
    {
        let job = self.job;
        let stepped = self.sd_card.advance(reply);
        match stepped {
            Step::Need(action) => Step::Need(action),
            Step::Done(value) => {
                self.job = Job::Idle;
                match job {
                    Job::Idle => Step::Done(value),
                    Job::Preparing(target) => {
                        if value.is_ok() {
                            self.state = target;
                        }
                        Step::Done(value)
                    },
                    Job::Data(reading) => match value {
                        Ok(output) => Step::Done(Ok(output)),
                        Err(e) => {
                            self.state = State::Init;
                            let stop = if reading {
                                self.sd_card.end_read()
                            } else {
                                self.sd_card.end_write()
                            };
                            match stop {
                                Step::Need(action) => {
                                    self.job = Job::Failing(reading, e);
                                    Step::Need(action)
                                },
                                Step::Done(Ok(_)) => Step::Done(Err(e)),
                                Step::Done(Err(late)) => Step::Done(Err(late)),
                            }
                        },
                    },
                    Job::Stopping => {
                        self.state = State::Init;
                        Step::Done(value)
                    },
                    Job::Failing(_, e) => match value {
                        Ok(_) => Step::Done(Err(e)),
                        Err(late) => Step::Done(Err(late)),
                    },
                }
            },
        }
    }
}

} // verus!
