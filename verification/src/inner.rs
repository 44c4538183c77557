//! The protocol engine: the card as the driver knows it, and the one
//! operation that may be under way on it.

use crate::acquire::{acquire_run, Acquire};
use crate::bus::{group_run, Next, Reply, ReplySpec, Run};
use crate::data::{read_data_run, DataIn};
use crate::outcome::{as_card, as_payload, as_unit, outcome_view, Outcome, Output, OutputSpec, Step};
use crate::register::Query;
use crate::transaction::{transaction_run, Plan, PlanSpec, Transaction};
use crate::transfer::{write_block_run, BlockOut};
use crate::types::{blocks_view, AcquireOpts, Block, BlockIdx, CardType, Error};
use vstd::prelude::*;

verus! {

broadcast use group_run;

/// The address that stands for a block in a command to a card of this
/// kind: the index of the block on a high-capacity card, the offset of its
/// first byte on any other, as far as 32 bits hold it.
pub open spec fn wire_address(card: CardType, index: u32) -> u32 {
    match card {
        CardType::SDHC => index,
        _ => ((index as int * 512) % 0x1_0000_0000) as u32,
    }
}

/// Computes the address that stands for a block in a command.
pub fn address(card: CardType, index: BlockIdx) -> (arg: u32)
    ensures
        arg == wire_address(card, index.0),
        card != CardType::SDHC && index.0 <= 0x7F_FFFF ==> arg == index.0 * 512,
{
    match card {
        CardType::SDHC => index.0,
        _ => ((index.0 as u64 * 512) % 0x1_0000_0000) as u32,
    }
}

/// Acquisition, as an operation: it reports the kind of card found.
pub open spec fn acquire_op_run(opts: AcquireOpts, replies: Seq<ReplySpec>) -> Run<Outcome> {
    as_card(acquire_run(opts, replies))
}

/// Making sure that the card is known: a card that is known is left alone,
/// any other is acquired.
pub open spec fn check_init_run(
    card: Option<CardType>,
    opts: AcquireOpts,
    replies: Seq<ReplySpec>,
) -> Run<Outcome> {
    match card {
        Some(_) => Run::done(Ok(OutputSpec::Card(card)), replies),
        None => acquire_op_run(opts, replies),
    }
}

/// Reading `count` blocks from the block `start` on: without a known card
/// the read fails at once; otherwise it is the transaction that reads from
/// the wire address of `start`.
pub open spec fn read_run(
    card: Option<CardType>,
    use_crc: bool,
    count: nat,
    start: u32,
    replies: Seq<ReplySpec>,
) -> Run<Outcome> {
    match card {
        None => Run::done(Err(Error::CardNotFound), replies),
        Some(card) => transaction_run(
            PlanSpec::Read { count, arg: wire_address(card, start) },
            use_crc,
            replies,
        ),
    }
}

/// Writing `blocks` from the block `start` on: without a known card the
/// write fails at once; otherwise it is the transaction that writes to the
/// wire address of `start`.
pub open spec fn write_run(
    card: Option<CardType>,
    use_crc: bool,
    blocks: Seq<Seq<u8>>,
    start: u32,
    replies: Seq<ReplySpec>,
) -> Run<Outcome> {
    match card {
        None => Run::done(Err(Error::CardNotFound), replies),
        Some(card) => transaction_run(
            PlanSpec::Write { blocks, arg: wire_address(card, start) },
            use_crc,
            replies,
        ),
    }
}

/// Asking something of the register: the card is selected first, and only
/// then is a card that is not known found missing.
pub open spec fn query_run(
    card: Option<CardType>,
    use_crc: bool,
    query: Query,
    replies: Seq<ReplySpec>,
) -> Run<Outcome> {
    transaction_run(PlanSpec::Query { card, query }, use_crc, replies)
}

/// Opening a multiple-block read at the block `start`. When it succeeds
/// the card stays selected.
pub open spec fn prepare_read_run(
    card: Option<CardType>,
    use_crc: bool,
    start: u32,
    replies: Seq<ReplySpec>,
) -> Run<Outcome> {
    match card {
        None => Run::done(Err(Error::CardNotFound), replies),
        Some(card) => transaction_run(
            PlanSpec::PrepareRead { arg: wire_address(card, start) },
            use_crc,
            replies,
        ),
    }
}

/// Opening a multiple-block write of `len` blocks at the block `start`.
/// When it succeeds the card stays selected.
pub open spec fn prepare_write_run(
    card: Option<CardType>,
    use_crc: bool,
    start: u32,
    len: u32,
    replies: Seq<ReplySpec>,
) -> Run<Outcome> {
    match card {
        None => Run::done(Err(Error::CardNotFound), replies),
        Some(card) => transaction_run(
            PlanSpec::PrepareWrite { arg: wire_address(card, start), len },
            use_crc,
            replies,
        ),
    }
}

/// Closing a multiple-block read: the stop command, and the card is
/// deselected.
pub open spec fn end_read_run(use_crc: bool, replies: Seq<ReplySpec>) -> Run<Outcome> {
    transaction_run(PlanSpec::EndRead, use_crc, replies)
}

/// Closing a multiple-block write: the stop token, and the card is
/// deselected.
pub open spec fn end_write_run(use_crc: bool, replies: Seq<ReplySpec>) -> Run<Outcome> {
    transaction_run(PlanSpec::EndWrite, use_crc, replies)
}

/// Reading the next packet of `len` bytes of an open multiple-block read.
pub open spec fn read_data_op_run(len: nat, use_crc: bool, replies: Seq<ReplySpec>) -> Run<
    Outcome,
> {
    as_payload(read_data_run(len, use_crc, replies))
}

/// Writing the next block of an open multiple-block write.
pub open spec fn write_inner_block_run(
    block: Seq<u8>,
    use_crc: bool,
    replies: Seq<ReplySpec>,
) -> Run<
    Outcome,
> {
    as_unit(write_block_run(block, use_crc, replies))
}

/// The kind of card that is known after an operation on a card known as
/// `before` has ended with `outcome`: an acquisition that succeeded makes
/// the card known, and nothing else changes what is known.
pub open spec fn card_after(before: Option<CardType>, outcome: Outcome) -> Option<CardType> {
    match outcome {
        Ok(OutputSpec::Card(Some(card))) => Some(card),
        _ => before,
    }
}

#[derive(Debug)]
enum Task {
    Idle,
    Acquire(Acquire),
    Transaction(Transaction),
    Data(DataIn),
    Block(BlockOut),
}

/// The card as the driver knows it, and the operation under way on it.
#[derive(Debug)]
pub struct SdCardInner {
    card_type: Option<CardType>,
    options: AcquireOpts,
    task: Task,
}

impl SdCardInner {
    /// The kind of card, if it is known.
    pub closed spec fn card(self) -> Option<CardType> {
        self.card_type
    }

    /// The options that the engine was made with.
    pub closed spec fn opts(self) -> AcquireOpts {
        self.options
    }

    /// Whether an operation is under way.
    pub closed spec fn busy(self) -> bool {
        !(self.task is Idle)
    }

    /// Whether the operation under way is an acquisition.
    pub closed spec fn acquiring(self) -> bool {
        self.task is Acquire
    }

    /// Whether the operation under way is in order.
    pub closed spec fn wf(self) -> bool {
        match self.task {
            Task::Transaction(transaction) => transaction.wf(),
            Task::Data(data) => data.wf(),
            Task::Block(block) => block.wf(),
            _ => true,
        }
    }

    /// What the operation under way does once the pending action is
    /// answered with `reply` and `replies` follow.
    pub closed spec fn on(self, reply: ReplySpec, replies: Seq<ReplySpec>) -> Run<Outcome> {
        match self.task {
            Task::Idle => Run::done(Err(Error::BadState), replies),
            Task::Acquire(acquire) => as_card(acquire.on(reply, replies)),
            Task::Transaction(transaction) => transaction.on(reply, replies),
            Task::Data(data) => as_payload(data.on(reply, replies)),
            Task::Block(block) => as_unit(block.on(reply, replies)),
        }
    }

    /// An engine that knows of no card.
    pub fn new(options: AcquireOpts) -> (inner: SdCardInner)
        ensures
            inner.card() is None,
            inner.opts() == options,
            !inner.busy(),
            !inner.acquiring(),
            inner.wf(),
    {
        SdCardInner { card_type: None, options, task: Task::Idle }
    }

    /// The kind of card, if it is known.
    pub fn card_type(&self) -> (card: Option<CardType>)
        ensures
            card == self.card(),
    {
        self.card_type
    }

    /// The options that the engine was made with.
    pub fn options(&self) -> (options: AcquireOpts)
        ensures
            options == self.opts(),
    {
        self.options
    }

    /// Whether an operation is under way.
    pub fn is_busy(&self) -> (busy: bool)
        ensures
            busy == self.busy(),
    {
        match self.task {
            Task::Idle => false,
            _ => true,
        }
    }

    /// Sets what is known of the card, with no questions asked.
    pub fn set_card_type(&mut self, card: Option<CardType>)
        requires
            !old(self).busy(),
        ensures
            final(self).card() == card,
            final(self).opts() == old(self).opts(),
            !final(self).busy(),
            !final(self).acquiring(),
            final(self).wf(),
    {
        self.card_type = card;
    }

    /// Gives up the operation under way, if there is one. Nothing is sent:
    /// the bus and the card are left as the last action left them, which
    /// the next acquisition is made to cope with.
    pub fn abandon(&mut self)
        ensures
            !final(self).busy(),
            !final(self).acquiring(),
            final(self).wf(),
            final(self).card() == old(self).card(),
            final(self).opts() == old(self).opts(),
    {
        self.task = Task::Idle;
    }

    fn run(&mut self, started: Next<Transaction, Result<Output, Error>>) -> (out: Step)
        requires
            !old(self).busy(),
            started matches Next::Need(transaction, _) ==> transaction.wf(),
        ensures
            final(self).card() == old(self).card(),
            final(self).opts() == old(self).opts(),
            final(self).wf(),
            !final(self).acquiring(),
            started is Need ==> out is Need,
            match (started, out) {
                (Next::Need(transaction, first), Step::Need(action)) => final(self).busy()
                    && first@ == action@ && forall|
                    reply: ReplySpec,
                    replies: Seq<ReplySpec>,
                |
                    #[trigger] final(self).on(reply, replies) == transaction.on(reply, replies),
                (Next::Done(result), Step::Done(value)) => !final(self).busy() && outcome_view(
                    result,
                ) == outcome_view(value),
                _ => false,
            },
    {
        match started {
            Next::Need(transaction, action) => {
                self.task = Task::Transaction(transaction);
                Step::Need(action)
            },
            Next::Done(result) => Step::Done(result),
        }
    }

    /// Starts an acquisition.
    pub fn acquire(&mut self) -> (out: Step)
        requires
            !old(self).busy(),
        ensures
            final(self).card() == old(self).card(),
            final(self).opts() == old(self).opts(),
            final(self).wf(),
            final(self).acquiring(),
            match out {
                Step::Need(action) => final(self).busy() && forall|
                    replies: Seq<ReplySpec>,
                |
                    #[trigger] acquire_op_run(old(self).opts(), replies) == Run::ask(
                        action@,
                        replies,
                        final(self).on(replies.first(), replies.drop_first()),
                    ),
                Step::Done(value) => !final(self).busy() && forall|replies: Seq<ReplySpec>|
                    #[trigger] acquire_op_run(
                        old(self).opts(),
                        replies,
                    ) == Run::done(outcome_view(value), replies),
            },
            out is Need,
    {
        let (acquire, action) = Acquire::start(self.options);
        self.task = Task::Acquire(acquire);
        Step::Need(action)
    }

    /// Starts an acquisition, unless the card is known.
    pub fn check_init(&mut self) -> (out: Step)
        requires
            !old(self).busy(),
        ensures
            final(self).card() == old(self).card(),
            final(self).opts() == old(self).opts(),
            final(self).wf(),
            final(self).acquiring() == (out is Need),
            match out {
                Step::Need(action) => final(self).busy() && forall|
                    replies: Seq<ReplySpec>,
                |
                    #[trigger] check_init_run(
                        old(self).card(),
                        old(self).opts(),
                        replies,
                    ) == Run::ask(
                        action@,
                        replies,
                        final(self).on(replies.first(), replies.drop_first()),
                    ),
                Step::Done(value) => !final(self).busy() && forall|replies: Seq<ReplySpec>|
                    #[trigger] check_init_run(
                        old(self).card(),
                        old(self).opts(),
                        replies,
                    ) == Run::done(outcome_view(value), replies),
            },
            old(self).card() is None ==> out is Need,
    {
        match self.card_type {
            Some(card) => Step::Done(Ok(Output::Card(Some(card)))),
            None => self.acquire(),
        }
    }

    /// Starts a read of `count` blocks from the block `start_block_idx` on.
    pub fn read(&mut self, count: usize, start_block_idx: BlockIdx) -> (out: Step)
        requires
            !old(self).busy(),
        ensures
            final(self).card() == old(self).card(),
            final(self).opts() == old(self).opts(),
            final(self).wf(),
            !final(self).acquiring(),
            match out {
                Step::Need(action) => final(self).busy() && forall|
                    replies: Seq<ReplySpec>,
                |
                    #[trigger] read_run(
                        old(self).card(),
                        old(self).opts().use_crc,
                        count as nat,
                        start_block_idx.0,
                        replies,
                    ) == Run::ask(
                        action@,
                        replies,
                        final(self).on(replies.first(), replies.drop_first()),
                    ),
                Step::Done(value) => !final(self).busy() && forall|replies: Seq<ReplySpec>|
                    #[trigger] read_run(
                        old(self).card(),
                        old(self).opts().use_crc,
                        count as nat,
                        start_block_idx.0,
                        replies,
                    ) == Run::done(outcome_view(value), replies),
            },
    {
        match self.card_type {
            None => Step::Done(Err(Error::CardNotFound)),
            Some(card) => {
                let plan = Plan::Read { count, arg: address(card, start_block_idx) };
                let started = Transaction::start(plan, self.options.use_crc);
                self.run(started)
            },
        }
    }

    /// Starts a write of `blocks` from the block `start_block_idx` on.
    pub fn write(&mut self, blocks: Vec<Block>, start_block_idx: BlockIdx) -> (out: Step)
        requires
            !old(self).busy(),
            blocks@.len() <= u32::MAX,
        ensures
            final(self).card() == old(self).card(),
            final(self).opts() == old(self).opts(),
            final(self).wf(),
            !final(self).acquiring(),
            match out {
                Step::Need(action) => final(self).busy() && forall|
                    replies: Seq<ReplySpec>,
                |
                    #[trigger] write_run(
                        old(self).card(),
                        old(self).opts().use_crc,
                        blocks_view(blocks@),
                        start_block_idx.0,
                        replies,
                    ) == Run::ask(
                        action@,
                        replies,
                        final(self).on(replies.first(), replies.drop_first()),
                    ),
                Step::Done(value) => !final(self).busy() && forall|replies: Seq<ReplySpec>|
                    #[trigger] write_run(
                        old(self).card(),
                        old(self).opts().use_crc,
                        blocks_view(blocks@),
                        start_block_idx.0,
                        replies,
                    ) == Run::done(outcome_view(value), replies),
            },
    {
        match self.card_type {
            None => Step::Done(Err(Error::CardNotFound)),
            Some(card) => {
                let plan = Plan::Write { blocks, arg: address(card, start_block_idx) };
                let started = Transaction::start(plan, self.options.use_crc);
                self.run(started)
            },
        }
    }

    fn query(&mut self, query: Query) -> (out: Step)
        requires
            !old(self).busy(),
        ensures
            final(self).card() == old(self).card(),
            final(self).opts() == old(self).opts(),
            final(self).wf(),
            !final(self).acquiring(),
            match out {
                Step::Need(action) => final(self).busy() && forall|
                    replies: Seq<ReplySpec>,
                |
                    #[trigger] query_run(
                        old(self).card(),
                        old(self).opts().use_crc,
                        query,
                        replies,
                    ) == Run::ask(
                        action@,
                        replies,
                        final(self).on(replies.first(), replies.drop_first()),
                    ),
                Step::Done(value) => !final(self).busy() && forall|replies: Seq<ReplySpec>|
                    #[trigger] query_run(
                        old(self).card(),
                        old(self).opts().use_crc,
                        query,
                        replies,
                    ) == Run::done(outcome_view(value), replies),
            },
    {
        let plan = Plan::Query { card: self.card_type, query };
        let started = Transaction::start(plan, self.options.use_crc);
        self.run(started)
    }

    /// Starts asking the card how many blocks it holds.
    pub fn num_blocks(&mut self) -> (out: Step)
        requires
            !old(self).busy(),
        ensures
            final(self).card() == old(self).card(),
            final(self).opts() == old(self).opts(),
            final(self).wf(),
            !final(self).acquiring(),
            match out {
                Step::Need(action) => final(self).busy() && forall|
                    replies: Seq<ReplySpec>,
                |
                    #[trigger] query_run(
                        old(self).card(),
                        old(self).opts().use_crc,
                        Query::Blocks,
                        replies,
                    ) == Run::ask(
                        action@,
                        replies,
                        final(self).on(replies.first(), replies.drop_first()),
                    ),
                Step::Done(value) => !final(self).busy() && forall|replies: Seq<ReplySpec>|
                    #[trigger] query_run(
                        old(self).card(),
                        old(self).opts().use_crc,
                        Query::Blocks,
                        replies,
                    ) == Run::done(outcome_view(value), replies),
            },
    {
        self.query(Query::Blocks)
    }

    /// Starts asking the card how many bytes it holds.
    pub fn num_bytes(&mut self) -> (out: Step)
        requires
            !old(self).busy(),
        ensures
            final(self).card() == old(self).card(),
            final(self).opts() == old(self).opts(),
            final(self).wf(),
            !final(self).acquiring(),
            match out {
                Step::Need(action) => final(self).busy() && forall|
                    replies: Seq<ReplySpec>,
                |
                    #[trigger] query_run(
                        old(self).card(),
                        old(self).opts().use_crc,
                        Query::Bytes,
                        replies,
                    ) == Run::ask(
                        action@,
                        replies,
                        final(self).on(replies.first(), replies.drop_first()),
                    ),
                Step::Done(value) => !final(self).busy() && forall|replies: Seq<ReplySpec>|
                    #[trigger] query_run(
                        old(self).card(),
                        old(self).opts().use_crc,
                        Query::Bytes,
                        replies,
                    ) == Run::done(outcome_view(value), replies),
            },
    {
        self.query(Query::Bytes)
    }

    /// Starts asking the card whether it can erase single blocks.
    pub fn erase_single_block_enabled(&mut self) -> (out: Step)
        requires
            !old(self).busy(),
        ensures
            final(self).card() == old(self).card(),
            final(self).opts() == old(self).opts(),
            final(self).wf(),
            !final(self).acquiring(),
            match out {
                Step::Need(action) => final(self).busy() && forall|
                    replies: Seq<ReplySpec>,
                |
                    #[trigger] query_run(
                        old(self).card(),
                        old(self).opts().use_crc,
                        Query::EraseSingleBlock,
                        replies,
                    ) == Run::ask(
                        action@,
                        replies,
                        final(self).on(replies.first(), replies.drop_first()),
                    ),
                Step::Done(value) => !final(self).busy() && forall|replies: Seq<ReplySpec>|
                    #[trigger] query_run(
                        old(self).card(),
                        old(self).opts().use_crc,
                        Query::EraseSingleBlock,
                        replies,
                    ) == Run::done(outcome_view(value), replies),
            },
    {
        self.query(Query::EraseSingleBlock)
    }

    /// Starts the opening of a multiple-block read at the block
    /// `start_block_idx`.
    pub fn prepare_read(&mut self, start_block_idx: BlockIdx) -> (out: Step)
        requires
            !old(self).busy(),
        ensures
            final(self).card() == old(self).card(),
            final(self).opts() == old(self).opts(),
            final(self).wf(),
            !final(self).acquiring(),
            match out {
                Step::Need(action) => final(self).busy() && forall|
                    replies: Seq<ReplySpec>,
                |
                    #[trigger] prepare_read_run(
                        old(self).card(),
                        old(self).opts().use_crc,
                        start_block_idx.0,
                        replies,
                    ) == Run::ask(
                        action@,
                        replies,
                        final(self).on(replies.first(), replies.drop_first()),
                    ),
                Step::Done(value) => !final(self).busy() && forall|replies: Seq<ReplySpec>|
                    #[trigger] prepare_read_run(
                        old(self).card(),
                        old(self).opts().use_crc,
                        start_block_idx.0,
                        replies,
                    ) == Run::done(outcome_view(value), replies),
            },
    {
        match self.card_type {
            None => Step::Done(Err(Error::CardNotFound)),
            Some(card) => {
                let plan = Plan::PrepareRead { arg: address(card, start_block_idx) };
                let started = Transaction::start(plan, self.options.use_crc);
                self.run(started)
            },
        }
    }

    /// Starts the closing of a multiple-block read.
    pub fn end_read(&mut self) -> (out: Step)
        requires
            !old(self).busy(),
        ensures
            final(self).card() == old(self).card(),
            final(self).opts() == old(self).opts(),
            final(self).wf(),
            !final(self).acquiring(),
            match out {
                Step::Need(action) => final(self).busy() && forall|
                    replies: Seq<ReplySpec>,
                |
                    #[trigger] end_read_run(old(self).opts().use_crc, replies) == Run::ask(
                        action@,
                        replies,
                        final(self).on(replies.first(), replies.drop_first()),
                    ),
                Step::Done(value) => !final(self).busy() && forall|replies: Seq<ReplySpec>|
                    #[trigger] end_read_run(
                        old(self).opts().use_crc,
                        replies,
                    ) == Run::done(outcome_view(value), replies),
            },
            out is Need,
    {
        let started = Transaction::start(Plan::EndRead, self.options.use_crc);
        self.run(started)
    }

    /// Starts the opening of a multiple-block write of `blocks_length`
    /// blocks at the block `start_block_idx`.
    pub fn prepare_write(&mut self, start_block_idx: BlockIdx, blocks_length: u32) -> (out: Step)
        requires
            !old(self).busy(),
        ensures
            final(self).card() == old(self).card(),
            final(self).opts() == old(self).opts(),
            final(self).wf(),
            !final(self).acquiring(),
            match out {
                Step::Need(action) => final(self).busy() && forall|
                    replies: Seq<ReplySpec>,
                |
                    #[trigger] prepare_write_run(
                        old(self).card(),
                        old(self).opts().use_crc,
                        start_block_idx.0,
                        blocks_length,
                        replies,
                    ) == Run::ask(
                        action@,
                        replies,
                        final(self).on(replies.first(), replies.drop_first()),
                    ),
                Step::Done(value) => !final(self).busy() && forall|replies: Seq<ReplySpec>|
                    #[trigger] prepare_write_run(
                        old(self).card(),
                        old(self).opts().use_crc,
                        start_block_idx.0,
                        blocks_length,
                        replies,
                    ) == Run::done(outcome_view(value), replies),
            },
    {
        match self.card_type {
            None => Step::Done(Err(Error::CardNotFound)),
            Some(card) => {
                let plan = Plan::PrepareWrite {
                    arg: address(card, start_block_idx),
                    len: blocks_length,
                };
                let started = Transaction::start(plan, self.options.use_crc);
                self.run(started)
            },
        }
    }

    /// Starts the closing of a multiple-block write.
    pub fn end_write(&mut self) -> (out: Step)
        requires
            !old(self).busy(),
        ensures
            final(self).card() == old(self).card(),
            final(self).opts() == old(self).opts(),
            final(self).wf(),
            !final(self).acquiring(),
            match out {
                Step::Need(action) => final(self).busy() && forall|
                    replies: Seq<ReplySpec>,
                |
                    #[trigger] end_write_run(old(self).opts().use_crc, replies) == Run::ask(
                        action@,
                        replies,
                        final(self).on(replies.first(), replies.drop_first()),
                    ),
                Step::Done(value) => !final(self).busy() && forall|replies: Seq<ReplySpec>|
                    #[trigger] end_write_run(
                        old(self).opts().use_crc,
                        replies,
                    ) == Run::done(outcome_view(value), replies),
            },
            out is Need,
    {
        let started = Transaction::start(Plan::EndWrite, self.options.use_crc);
        self.run(started)
    }

    /// Starts reading the next packet of `len` bytes of an open
    /// multiple-block read.
    pub fn read_data(&mut self, len: usize) -> (out: Step)
        requires
            !old(self).busy(),
        ensures
            final(self).card() == old(self).card(),
            final(self).opts() == old(self).opts(),
            final(self).wf(),
            !final(self).acquiring(),
            match out {
                Step::Need(action) => final(self).busy() && forall|
                    replies: Seq<ReplySpec>,
                |
                    #[trigger] read_data_op_run(
                        len as nat,
                        old(self).opts().use_crc,
                        replies,
                    ) == Run::ask(
                        action@,
                        replies,
                        final(self).on(replies.first(), replies.drop_first()),
                    ),
                Step::Done(value) => !final(self).busy() && forall|replies: Seq<ReplySpec>|
                    #[trigger] read_data_op_run(
                        len as nat,
                        old(self).opts().use_crc,
                        replies,
                    ) == Run::done(outcome_view(value), replies),
            },
            out is Need,
    {
        let (data, action) = DataIn::start(len, self.options.use_crc);
        self.task = Task::Data(data);
        Step::Need(action)
    }

    /// Starts writing the next block of an open multiple-block write.
    pub fn write_inner_block(&mut self, block: Vec<u8>) -> (out: Step)
        requires
            !old(self).busy(),
        ensures
            final(self).card() == old(self).card(),
            final(self).opts() == old(self).opts(),
            final(self).wf(),
            !final(self).acquiring(),
            match out {
                Step::Need(action) => final(self).busy() && forall|
                    replies: Seq<ReplySpec>,
                |
                    #[trigger] write_inner_block_run(
                        block@,
                        old(self).opts().use_crc,
                        replies,
                    ) == Run::ask(
                        action@,
                        replies,
                        final(self).on(replies.first(), replies.drop_first()),
                    ),
                Step::Done(value) => !final(self).busy() && forall|replies: Seq<ReplySpec>|
                    #[trigger] write_inner_block_run(
                        block@,
                        old(self).opts().use_crc,
                        replies,
                    ) == Run::done(outcome_view(value), replies),
            },
            out is Need,
    {
        let (sent, action) = BlockOut::start(block, self.options.use_crc);
        self.task = Task::Block(sent);
        Step::Need(action)
    }

    /// Resumes the operation under way with the reply to its pending
    /// action. When the operation ends, an acquisition that succeeded has
    /// made the card known.
    pub fn advance(&mut self, reply: Reply) -> (out: Step)
        requires
            old(self).busy(),
            old(self).wf(),
        ensures
            final(self).opts() == old(self).opts(),
            final(self).wf(),
            final(self).acquiring() == (old(self).acquiring() && out is Need),
            !old(self).acquiring() ==> final(self).card() == old(self).card(),
            match out {
                Step::Need(action) => final(self).busy() && final(self).card()
                    == old(self).card() && forall|replies: Seq<ReplySpec>|
                    #[trigger] old(self).on(reply@, replies) == Run::ask(
                        action@,
                        replies,
                        final(self).on(replies.first(), replies.drop_first()),
                    ),
                Step::Done(value) => !final(self).busy() && final(self).card() == card_after(
                    old(self).card(),
                    outcome_view(value),
                ) && forall|replies: Seq<ReplySpec>|
                    #[trigger] old(self).on(reply@, replies) == Run::done(
                        outcome_view(value),
                        replies,
                    ),
            },
    {
        let mut task = Task::Idle;
        core::mem::swap(&mut self.task, &mut task);
        match task {
            Task::Idle => Step::Done(Err(Error::BadState)),
            Task::Acquire(acquire) => match acquire.step(reply) {
                Next::Need(acquire, action) => {
                    self.task = Task::Acquire(acquire);
                    Step::Need(action)
                },
                Next::Done(Ok(card)) => {
                    self.card_type = Some(card);
                    Step::Done(Ok(Output::Card(Some(card))))
                },
                Next::Done(Err(e)) => Step::Done(Err(e)),
            },
            Task::Transaction(transaction) => match transaction.step(reply) {
                Next::Need(transaction, action) => {
                    self.task = Task::Transaction(transaction);
                    Step::Need(action)
                },
                Next::Done(result) => Step::Done(result),
            },
            Task::Data(data) => match data.step(reply) {
                Next::Need(data, action) => {
                    self.task = Task::Data(data);
                    Step::Need(action)
                },
                Next::Done(Ok(payload)) => Step::Done(Ok(Output::Payload(payload))),
                Next::Done(Err(e)) => Step::Done(Err(e)),
            },
            Task::Block(block) => match block.step(reply) {
                Next::Need(block, action) => {
                    self.task = Task::Block(block);
                    Step::Need(action)
                },
                Next::Done(Ok(_)) => Step::Done(Ok(Output::Unit)),
                Next::Done(Err(e)) => Step::Done(Err(e)),
            },
        }
    }
}

} // verus!
