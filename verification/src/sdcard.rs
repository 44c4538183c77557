//! The block device: operations that acquire the card when they find it
//! unknown.

use crate::bus::{group_run, Action, ActionSpec, Reply, ReplySpec, Run};
use crate::inner::{
    acquire_op_run, end_read_run, end_write_run, prepare_read_run, prepare_write_run, query_run,
    read_data_op_run, read_run, write_inner_block_run, write_run, SdCardInner,
};
use crate::outcome::{outcome_view, Outcome, Output, OutputSpec, Step};
use crate::register::Query;
use crate::types::{blocks_view, AcquireOpts, Block, BlockIdx, CardType, Error};
use vstd::prelude::*;

verus! {

broadcast use group_run;

/// An operation that needs a live card.
#[derive(Debug)]
pub enum Request {
    /// Read this many blocks from this block on.
    Read { count: usize, start: u32 },
    /// Write these blocks from this block on.
    Write { blocks: Vec<Block>, start: u32 },
    /// Ask this of the register.
    Query(Query),
    /// Report the kind of card.
    CardType,
    /// Open a multiple-block read at this block.
    PrepareRead { start: u32 },
    /// Open a multiple-block write of this many blocks at this block.
    PrepareWrite { start: u32, len: u32 },
}

/// A [`Request`] as a mathematical value.
pub enum RequestSpec {
    Read { count: nat, start: u32 },
    Write { blocks: Seq<Seq<u8>>, start: u32 },
    Query(Query),
    CardType,
    PrepareRead { start: u32 },
    PrepareWrite { start: u32, len: u32 },
}

impl View for Request {
    type V = RequestSpec;

    open spec fn view(&self) -> RequestSpec {
        match self {
            Request::Read { count, start } => RequestSpec::Read {
                count: *count as nat,
                start: *start,
            },
            Request::Write { blocks, start } => RequestSpec::Write {
                blocks: blocks_view(blocks@),
                start: *start,
            },
            Request::Query(query) => RequestSpec::Query(*query),
            Request::CardType => RequestSpec::CardType,
            Request::PrepareRead { start } => RequestSpec::PrepareRead { start: *start },
            Request::PrepareWrite { start, len } => RequestSpec::PrepareWrite {
                start: *start,
                len: *len,
            },
        }
    }
}

impl RequestSpec {
    /// Whether the number of blocks to write fits the 32 bits in which it
    /// is announced.
    pub open spec fn fits(self) -> bool {
        self matches RequestSpec::Write { blocks, .. } ==> blocks.len() <= u32::MAX
    }
}

/// What a request does on a card that is known as `card`.
#[verifier::opaque]
pub open spec fn request_run(
    card: Option<CardType>,
    use_crc: bool,
    request: RequestSpec,
    replies: Seq<ReplySpec>,
) -> Run<Outcome> {
    match request {
        RequestSpec::Read { count, start } => read_run(card, use_crc, count, start, replies),
        RequestSpec::Write { blocks, start } => write_run(card, use_crc, blocks, start, replies),
        RequestSpec::Query(query) => query_run(card, use_crc, query, replies),
        RequestSpec::CardType => Run::done(Ok(OutputSpec::Card(card)), replies),
        RequestSpec::PrepareRead { start } => prepare_read_run(card, use_crc, start, replies),
        RequestSpec::PrepareWrite { start, len } => prepare_write_run(
            card,
            use_crc,
            start,
            len,
            replies,
        ),
    }
}

/// How a request ends when the acquisition before it has failed with `e`:
/// with that error, but for the request for the kind of card, which reports
/// that there is none.
pub open spec fn unserved(request: RequestSpec, e: Error) -> Outcome {
    match request {
        RequestSpec::CardType => Ok(OutputSpec::Card(None)),
        _ => Err(e),
    }
}

/// How an operation ends, and what is known of the card when it has.
pub type Settled = (Outcome, Option<CardType>);

/// A conversation during which the card is known as `card`.
pub open spec fn knowing(run: Run<Outcome>, card: Option<CardType>) -> Run<Settled> {
    Run {
        sent: run.sent,
        end: match run.end {
            None => None,
            Some((outcome, replies)) => Some(((outcome, card), replies)),
        },
    }
}

/// A request on a card that is acquired first if it is not known. A card
/// that is known stays what it is known as; a card that is acquired is
/// known from then on as the kind that was found; a card that cannot be
/// acquired stays unknown, and the request is not served.
pub open spec fn lazy_run(
    card: Option<CardType>,
    opts: AcquireOpts,
    request: RequestSpec,
    replies: Seq<ReplySpec>,
) -> Run<Settled> {
    match card {
        Some(_) => knowing(request_run(card, opts.use_crc, request, replies), card),
        None => acquired(opts.use_crc, request, acquire_op_run(opts, replies)),
    }
}

/// The acquisition of a card that was not known, and the request after
/// it.
pub open spec fn acquired(use_crc: bool, request: RequestSpec, acquisition: Run<Outcome>) -> Run<
    Settled,
> {
    acquisition.followed_by(
        match acquisition.value() {
            Ok(OutputSpec::Card(Some(card))) => knowing(
                request_run(Some(card), use_crc, request, acquisition.tail()),
                Some(card),
            ),
            Ok(_) => Run::done((Err(Error::CardNotFound), None), acquisition.tail()),
            Err(e) => Run::done((unserved(request, e), None), acquisition.tail()),
        },
    )
}

/// Replies as mathematical values.
pub open spec fn reply_views(replies: Seq<Reply>) -> Seq<ReplySpec> {
    Seq::new(replies.len(), |i: int| replies[i]@)
}

/// Actions as mathematical values.
pub open spec fn action_views(actions: Seq<Action>) -> Seq<ActionSpec> {
    Seq::new(actions.len(), |i: int| actions[i]@)
}

/// What the operation on `card` that stands at `step` does when `replies`
/// follow.
pub open spec fn continued(step: Step, card: SdCard, replies: Seq<ReplySpec>) -> Run<Settled> {
    match step {
        Step::Need(action) => Run::ask(
            action@,
            replies,
            card.on(replies.first(), replies.drop_first()),
        ),
        Step::Done(value) => Run::done((outcome_view(value), card.card()), replies),
    }
}

#[derive(Debug)]
enum Stage {
    Idle,
    Acquiring(Request),
    Serving,
    Direct,
}

/// An SD card on an SPI bus, as a block device.
///
/// Every operation is started by the method of its name and resumed with
/// [`SdCard::advance`] until it ends. One operation may be under way at a
/// time.
#[derive(Debug)]
pub struct SdCard {
    inner: SdCardInner,
    stage: Stage,
}

impl SdCard {
    /// The kind of card, if it is known.
    pub closed spec fn card(self) -> Option<CardType> {
        self.inner.card()
    }

    /// The options that the driver was made with.
    pub closed spec fn opts(self) -> AcquireOpts {
        self.inner.opts()
    }

    /// Whether an operation is under way.
    pub closed spec fn busy(self) -> bool {
        !(self.stage is Idle)
    }

    /// Whether the operation under way is one that needs a live card.
    pub closed spec fn live(self) -> bool {
        self.stage is Acquiring || self.stage is Serving
    }

    /// Whether the operation under way is in order.
    pub closed spec fn wf(self) -> bool {
        &&& self.inner.wf()
        &&& self.inner.busy() == self.busy()
        &&& self.stage matches Stage::Acquiring(request) ==> request@.fits()
        &&& self.stage is Acquiring ==> self.inner.card() is None
        &&& self.stage is Acquiring == self.inner.acquiring()
        &&& self.stage is Serving ==> self.inner.card() is Some
    }

    /// What the operation under way does once the pending action is
    /// answered with `reply` and `replies` follow.
    pub closed spec fn on(self, reply: ReplySpec, replies: Seq<ReplySpec>) -> Run<Settled> {
        match self.stage {
            Stage::Acquiring(request) => acquired(
                self.inner.opts().use_crc,
                request@,
                self.inner.on(reply, replies),
            ),
            _ => knowing(self.inner.on(reply, replies), self.inner.card()),
        }
    }

    /// A driver with the default options. Nothing is sent to the card until
    /// an operation needs it.
    pub fn new() -> (card: SdCard)
        ensures
            card.card() is None,
            card.opts().use_crc,
            card.opts().acquire_retries == 50,
            !card.busy(),
            card.wf(),
    {
        Self::new_with_options(AcquireOpts::default())
    }

    /// A driver with the given options. Nothing is sent to the card until
    /// an operation needs it.
    pub fn new_with_options(options: AcquireOpts) -> (card: SdCard)
        ensures
            card.card() is None,
            card.opts() == options,
            !card.busy(),
            card.wf(),
    {
        SdCard { inner: SdCardInner::new(options), stage: Stage::Idle }
    }

    /// The kind of card, if it is known. Nothing is sent to the card.
    pub fn card_type(&self) -> (card: Option<CardType>)
        ensures
            card == self.card(),
    {
        self.inner.card_type()
    }

    /// The options that the driver was made with.
    pub fn options(&self) -> (options: AcquireOpts)
        ensures
            options == self.opts(),
    {
        self.inner.options()
    }

    /// Whether an operation is under way.
    pub fn is_busy(&self) -> (busy: bool)
        ensures
            busy == self.busy(),
    {
        match self.stage {
            Stage::Idle => false,
            _ => true,
        }
    }

    /// Forgets the card: the next operation that needs it acquires it
    /// anew.
    pub fn mark_card_uninit(&mut self)
        requires
            !old(self).busy(),
            old(self).wf(),
        ensures
            final(self).card() is None,
            final(self).opts() == old(self).opts(),
            !final(self).busy(),
            final(self).wf(),
    {
        self.inner.set_card_type(None);
    }

    /// Declares the card acquired and of the given kind. Nothing checks
    /// this: on a card that is not, or is of another kind, what is read and
    /// written afterwards goes astray.
    pub fn mark_card_as_init(&mut self, card_type: CardType)
        requires
            !old(self).busy(),
            old(self).wf(),
        ensures
            final(self).card() == Some(card_type),
            final(self).opts() == old(self).opts(),
            !final(self).busy(),
            final(self).wf(),
    {
        self.inner.set_card_type(Some(card_type));
    }

    /// Gives up the operation under way, if there is one, so that another
    /// can be started. Nothing is sent: chip-select and the card are left
    /// as the last action left them. What is known of the card stays; a
    /// caller that cannot tell where the card was left forgets it with
    /// [`SdCard::mark_card_uninit`], and the next operation acquires it
    /// anew, which starts by deselecting it.
    pub fn abandon(&mut self)
        ensures
            !final(self).busy(),
            final(self).wf(),
            final(self).card() == old(self).card(),
            final(self).opts() == old(self).opts(),
    {
        self.inner.abandon();
        self.stage = Stage::Idle;
    }

    fn serve(&mut self, request: Request) -> (out: Step)
        requires
            !old(self).busy(),
            old(self).wf(),
            old(self).card() is Some,
            request@.fits(),
        ensures
            final(self).card() == old(self).card(),
            final(self).opts() == old(self).opts(),
            final(self).wf(),
            match out {
                Step::Need(action) => final(self).busy() && final(self).live() && forall|
                    replies: Seq<ReplySpec>,
                |
                    #[trigger] knowing(
                        request_run(old(self).card(), old(self).opts().use_crc, request@, replies),
                        old(self).card(),
                    ) == Run::ask(
                        action@,
                        replies,
                        final(self).on(replies.first(), replies.drop_first()),
                    ),
                Step::Done(value) => !final(self).busy() && forall|replies: Seq<ReplySpec>|
                    #[trigger] knowing(
                        request_run(old(self).card(), old(self).opts().use_crc, request@, replies),
                        old(self).card(),
                    ) == Run::done((outcome_view(value), final(self).card()), replies),
            },
    {
        reveal(request_run);
        let out = match request {
            Request::Read { count, start } => self.inner.read(count, BlockIdx(start)),
            Request::Write { blocks, start } => self.inner.write(blocks, BlockIdx(start)),
            Request::Query(query) => match query {
                Query::Blocks => self.inner.num_blocks(),
                Query::Bytes => self.inner.num_bytes(),
                Query::EraseSingleBlock => self.inner.erase_single_block_enabled(),
            },
            Request::CardType => Step::Done(Ok(Output::Card(self.inner.card_type()))),
            Request::PrepareRead { start } => self.inner.prepare_read(BlockIdx(start)),
            Request::PrepareWrite { start, len } => self.inner.prepare_write(BlockIdx(start), len),
        };
        match out {
            Step::Need(action) => {
                self.stage = Stage::Serving;
                Step::Need(action)
            },
            Step::Done(value) => {
                self.stage = Stage::Idle;
                Step::Done(value)
            },
        }
    }

    fn lazily(&mut self, request: Request) -> (out: Step)
        requires
            !old(self).busy(),
            old(self).wf(),
            request@.fits(),
        ensures
            final(self).card() == old(self).card(),
            final(self).opts() == old(self).opts(),
            final(self).wf(),
            match out {
                Step::Need(action) => final(self).busy() && final(self).live() && forall|
                    replies: Seq<ReplySpec>,
                |
                    #[trigger] lazy_run(old(self).card(), old(self).opts(), request@, replies)
                        == Run::ask(
                        action@,
                        replies,
                        final(self).on(replies.first(), replies.drop_first()),
                    ),
                Step::Done(value) => !final(self).busy() && forall|replies: Seq<ReplySpec>|
                    #[trigger] lazy_run(old(self).card(), old(self).opts(), request@, replies)
                        == Run::done((outcome_view(value), final(self).card()), replies),
            },
    {
        match self.inner.card_type() {
            Some(_) => self.serve(request),
            None => match self.inner.acquire() {
                Step::Need(action) => {
                    self.stage = Stage::Acquiring(request);
                    Step::Need(action)
                },
                Step::Done(_) => Step::Done(Err(Error::CardNotFound)),
            },
        }
    }

    /// Starts a read of `count` blocks from the block `start_block_idx` on.
    /// The blocks come back in [`Output::Blocks`].
    pub fn read(&mut self, count: usize, start_block_idx: BlockIdx) -> (out: Step)
        requires
            !old(self).busy(),
            old(self).wf(),
        ensures
            final(self).card() == old(self).card(),
            final(self).opts() == old(self).opts(),
            final(self).wf(),
            match out {
                Step::Need(action) => final(self).busy() && final(self).live() && forall|
                    replies: Seq<ReplySpec>,
                |
                    #[trigger] lazy_run(
                        old(self).card(),
                        old(self).opts(),
                        RequestSpec::Read { count: count as nat, start: start_block_idx.0 },
                        replies,
                    ) == Run::ask(
                        action@,
                        replies,
                        final(self).on(replies.first(), replies.drop_first()),
                    ),
                Step::Done(value) => !final(self).busy() && forall|replies: Seq<ReplySpec>|
                    #[trigger] lazy_run(
                        old(self).card(),
                        old(self).opts(),
                        RequestSpec::Read { count: count as nat, start: start_block_idx.0 },
                        replies,
                    ) == Run::done((outcome_view(value), final(self).card()), replies),
            },
    {
        self.lazily(Request::Read { count, start: start_block_idx.0 })
    }

    /// Starts a write of `blocks` from the block `start_block_idx` on.
    pub fn write(&mut self, blocks: Vec<Block>, start_block_idx: BlockIdx) -> (out: Step)
        requires
            !old(self).busy(),
            old(self).wf(),
            blocks@.len() <= u32::MAX,
        ensures
            final(self).card() == old(self).card(),
            final(self).opts() == old(self).opts(),
            final(self).wf(),
            match out {
                Step::Need(action) => final(self).busy() && final(self).live() && forall|
                    replies: Seq<ReplySpec>,
                |
                    #[trigger] lazy_run(
                        old(self).card(),
                        old(self).opts(),
                        RequestSpec::Write {
                            blocks: blocks_view(blocks@),
                            start: start_block_idx.0,
                        },
                        replies,
                    ) == Run::ask(
                        action@,
                        replies,
                        final(self).on(replies.first(), replies.drop_first()),
                    ),
                Step::Done(value) => !final(self).busy() && forall|replies: Seq<ReplySpec>|
                    #[trigger] lazy_run(
                        old(self).card(),
                        old(self).opts(),
                        RequestSpec::Write {
                            blocks: blocks_view(blocks@),
                            start: start_block_idx.0,
                        },
                        replies,
                    ) == Run::done((outcome_view(value), final(self).card()), replies),
            },
    {
        self.lazily(Request::Write { blocks, start: start_block_idx.0 })
    }

    /// Starts asking the card how many blocks it holds. The number comes
    /// back in [`Output::Count`].
    pub fn num_blocks(&mut self) -> (out: Step)
        requires
            !old(self).busy(),
            old(self).wf(),
        ensures
            final(self).card() == old(self).card(),
            final(self).opts() == old(self).opts(),
            final(self).wf(),
            match out {
                Step::Need(action) => final(self).busy() && final(self).live() && forall|
                    replies: Seq<ReplySpec>,
                |
                    #[trigger] lazy_run(
                        old(self).card(),
                        old(self).opts(),
                        RequestSpec::Query(Query::Blocks),
                        replies,
                    ) == Run::ask(
                        action@,
                        replies,
                        final(self).on(replies.first(), replies.drop_first()),
                    ),
                Step::Done(value) => !final(self).busy() && forall|replies: Seq<ReplySpec>|
                    #[trigger] lazy_run(
                        old(self).card(),
                        old(self).opts(),
                        RequestSpec::Query(Query::Blocks),
                        replies,
                    ) == Run::done((outcome_view(value), final(self).card()), replies),
            },
    {
        self.lazily(Request::Query(Query::Blocks))
    }

    /// Starts asking the card how many bytes it holds. The number comes
    /// back in [`Output::Size`].
    pub fn num_bytes(&mut self) -> (out: Step)
        requires
            !old(self).busy(),
            old(self).wf(),
        ensures
            final(self).card() == old(self).card(),
            final(self).opts() == old(self).opts(),
            final(self).wf(),
            match out {
                Step::Need(action) => final(self).busy() && final(self).live() && forall|
                    replies: Seq<ReplySpec>,
                |
                    #[trigger] lazy_run(
                        old(self).card(),
                        old(self).opts(),
                        RequestSpec::Query(Query::Bytes),
                        replies,
                    ) == Run::ask(
                        action@,
                        replies,
                        final(self).on(replies.first(), replies.drop_first()),
                    ),
                Step::Done(value) => !final(self).busy() && forall|replies: Seq<ReplySpec>|
                    #[trigger] lazy_run(
                        old(self).card(),
                        old(self).opts(),
                        RequestSpec::Query(Query::Bytes),
                        replies,
                    ) == Run::done((outcome_view(value), final(self).card()), replies),
            },
    {
        self.lazily(Request::Query(Query::Bytes))
    }

    /// Starts asking the card whether it can erase single blocks. The
    /// answer comes back in [`Output::Flag`].
    pub fn erase_single_block_enabled(&mut self) -> (out: Step)
        requires
            !old(self).busy(),
            old(self).wf(),
        ensures
            final(self).card() == old(self).card(),
            final(self).opts() == old(self).opts(),
            final(self).wf(),
            match out {
                Step::Need(action) => final(self).busy() && final(self).live() && forall|
                    replies: Seq<ReplySpec>,
                |
                    #[trigger] lazy_run(
                        old(self).card(),
                        old(self).opts(),
                        RequestSpec::Query(Query::EraseSingleBlock),
                        replies,
                    ) == Run::ask(
                        action@,
                        replies,
                        final(self).on(replies.first(), replies.drop_first()),
                    ),
                Step::Done(value) => !final(self).busy() && forall|replies: Seq<ReplySpec>|
                    #[trigger] lazy_run(
                        old(self).card(),
                        old(self).opts(),
                        RequestSpec::Query(Query::EraseSingleBlock),
                        replies,
                    ) == Run::done((outcome_view(value), final(self).card()), replies),
            },
    {
        self.lazily(Request::Query(Query::EraseSingleBlock))
    }

    /// Starts finding out the kind of card. It comes back in
    /// [`Output::Card`], which holds `None` if no card could be acquired.
    pub fn get_card_type(&mut self) -> (out: Step)
        requires
            !old(self).busy(),
            old(self).wf(),
        ensures
            final(self).card() == old(self).card(),
            final(self).opts() == old(self).opts(),
            final(self).wf(),
            match out {
                Step::Need(action) => final(self).busy() && final(self).live() && forall|
                    replies: Seq<ReplySpec>,
                |
                    #[trigger] lazy_run(
                        old(self).card(),
                        old(self).opts(),
                        RequestSpec::CardType,
                        replies,
                    ) == Run::ask(
                        action@,
                        replies,
                        final(self).on(replies.first(), replies.drop_first()),
                    ),
                Step::Done(value) => !final(self).busy() && forall|replies: Seq<ReplySpec>|
                    #[trigger] lazy_run(
                        old(self).card(),
                        old(self).opts(),
                        RequestSpec::CardType,
                        replies,
                    ) == Run::done((outcome_view(value), final(self).card()), replies),
            },
    {
        self.lazily(Request::CardType)
    }

    /// Starts the opening of a multiple-block read at the block
    /// `start_block_idx`.
    pub fn prepare_read(&mut self, start_block_idx: BlockIdx) -> (out: Step)
        requires
            !old(self).busy(),
            old(self).wf(),
        ensures
            final(self).card() == old(self).card(),
            final(self).opts() == old(self).opts(),
            final(self).wf(),
            match out {
                Step::Need(action) => final(self).busy() && final(self).live() && forall|
                    replies: Seq<ReplySpec>,
                |
                    #[trigger] lazy_run(
                        old(self).card(),
                        old(self).opts(),
                        RequestSpec::PrepareRead { start: start_block_idx.0 },
                        replies,
                    ) == Run::ask(
                        action@,
                        replies,
                        final(self).on(replies.first(), replies.drop_first()),
                    ),
                Step::Done(value) => !final(self).busy() && forall|replies: Seq<ReplySpec>|
                    #[trigger] lazy_run(
                        old(self).card(),
                        old(self).opts(),
                        RequestSpec::PrepareRead { start: start_block_idx.0 },
                        replies,
                    ) == Run::done((outcome_view(value), final(self).card()), replies),
            },
    {
        self.lazily(Request::PrepareRead { start: start_block_idx.0 })
    }

    /// Starts the opening of a multiple-block write of `blocks_length`
    /// blocks at the block `start_block_idx`.
    pub fn prepare_write(&mut self, start_block_idx: BlockIdx, blocks_length: u32) -> (out: Step)
        requires
            !old(self).busy(),
            old(self).wf(),
        ensures
            final(self).card() == old(self).card(),
            final(self).opts() == old(self).opts(),
            final(self).wf(),
            match out {
                Step::Need(action) => final(self).busy() && final(self).live() && forall|
                    replies: Seq<ReplySpec>,
                |
                    #[trigger] lazy_run(
                        old(self).card(),
                        old(self).opts(),
                        RequestSpec::PrepareWrite { start: start_block_idx.0, len: blocks_length },
                        replies,
                    ) == Run::ask(
                        action@,
                        replies,
                        final(self).on(replies.first(), replies.drop_first()),
                    ),
                Step::Done(value) => !final(self).busy() && forall|replies: Seq<ReplySpec>|
                    #[trigger] lazy_run(
                        old(self).card(),
                        old(self).opts(),
                        RequestSpec::PrepareWrite { start: start_block_idx.0, len: blocks_length },
                        replies,
                    ) == Run::done((outcome_view(value), final(self).card()), replies),
            },
    {
        self.lazily(Request::PrepareWrite { start: start_block_idx.0, len: blocks_length })
    }

    fn direct(&mut self, out: Step) -> (same: Step)
        requires
            old(self).stage is Idle,
            old(self).inner.wf(),
            !old(self).inner.acquiring(),
            out is Need <==> old(self).inner.busy(),
        ensures
            final(self).inner == old(self).inner,
            final(self).wf(),
            same == out,
            final(self).busy() == (out is Need),
            out is Need ==> final(self).stage is Direct,
    {
        match out {
            Step::Need(action) => {
                self.stage = Stage::Direct;
                Step::Need(action)
            },
            Step::Done(value) => Step::Done(value),
        }
    }

    /// Starts reading the next packet of `len` bytes of an open
    /// multiple-block read. The payload comes back in
    /// [`Output::Payload`].
    pub fn read_data(&mut self, len: usize) -> (out: Step)
        requires
            !old(self).busy(),
            old(self).wf(),
        ensures
            final(self).card() == old(self).card(),
            final(self).opts() == old(self).opts(),
            final(self).wf(),
            match out {
                Step::Need(action) => final(self).busy() && forall|
                    replies: Seq<ReplySpec>,
                |
                    #[trigger] knowing(
                        read_data_op_run(len as nat, old(self).opts().use_crc, replies),
                        old(self).card(),
                    ) == Run::ask(
                        action@,
                        replies,
                        final(self).on(replies.first(), replies.drop_first()),
                    ),
                Step::Done(value) => !final(self).busy() && forall|replies: Seq<ReplySpec>|
                    #[trigger] knowing(
                        read_data_op_run(len as nat, old(self).opts().use_crc, replies),
                        old(self).card(),
                    ) == Run::done((outcome_view(value), final(self).card()), replies),
            },
            out is Need,
    {
        let out = self.inner.read_data(len);
        self.direct(out)
    }

    /// Starts writing the next block of an open multiple-block write.
    pub fn write_inner_block(&mut self, block: Vec<u8>) -> (out: Step)
        requires
            !old(self).busy(),
            old(self).wf(),
        ensures
            final(self).card() == old(self).card(),
            final(self).opts() == old(self).opts(),
            final(self).wf(),
            match out {
                Step::Need(action) => final(self).busy() && forall|
                    replies: Seq<ReplySpec>,
                |
                    #[trigger] knowing(
                        write_inner_block_run(block@, old(self).opts().use_crc, replies),
                        old(self).card(),
                    ) == Run::ask(
                        action@,
                        replies,
                        final(self).on(replies.first(), replies.drop_first()),
                    ),
                Step::Done(value) => !final(self).busy() && forall|replies: Seq<ReplySpec>|
                    #[trigger] knowing(
                        write_inner_block_run(block@, old(self).opts().use_crc, replies),
                        old(self).card(),
                    ) == Run::done((outcome_view(value), final(self).card()), replies),
            },
            out is Need,
    {
        let out = self.inner.write_inner_block(block);
        self.direct(out)
    }

    /// Starts the closing of a multiple-block read.
    pub fn end_read(&mut self) -> (out: Step)
        requires
            !old(self).busy(),
            old(self).wf(),
        ensures
            final(self).card() == old(self).card(),
            final(self).opts() == old(self).opts(),
            final(self).wf(),
            match out {
                Step::Need(action) => final(self).busy() && forall|
                    replies: Seq<ReplySpec>,
                |
                    #[trigger] knowing(
                        end_read_run(old(self).opts().use_crc, replies),
                        old(self).card(),
                    ) == Run::ask(
                        action@,
                        replies,
                        final(self).on(replies.first(), replies.drop_first()),
                    ),
                Step::Done(value) => !final(self).busy() && forall|replies: Seq<ReplySpec>|
                    #[trigger] knowing(
                        end_read_run(old(self).opts().use_crc, replies),
                        old(self).card(),
                    ) == Run::done((outcome_view(value), final(self).card()), replies),
            },
            out is Need,
    {
        let out = self.inner.end_read();
        self.direct(out)
    }

    /// Starts the closing of a multiple-block write.
    pub fn end_write(&mut self) -> (out: Step)
        requires
            !old(self).busy(),
            old(self).wf(),
        ensures
            final(self).card() == old(self).card(),
            final(self).opts() == old(self).opts(),
            final(self).wf(),
            match out {
                Step::Need(action) => final(self).busy() && forall|
                    replies: Seq<ReplySpec>,
                |
                    #[trigger] knowing(
                        end_write_run(old(self).opts().use_crc, replies),
                        old(self).card(),
                    ) == Run::ask(
                        action@,
                        replies,
                        final(self).on(replies.first(), replies.drop_first()),
                    ),
                Step::Done(value) => !final(self).busy() && forall|replies: Seq<ReplySpec>|
                    #[trigger] knowing(
                        end_write_run(old(self).opts().use_crc, replies),
                        old(self).card(),
                    ) == Run::done((outcome_view(value), final(self).card()), replies),
            },
            out is Need,
    {
        let out = self.inner.end_write();
        self.direct(out)
    }

    /// Resumes the operation under way with the reply to its pending
    /// action. An operation that needs a live card and ends well leaves the
    /// card known.
    pub fn advance(&mut self, reply: Reply) -> (out: Step)
        requires
            old(self).busy(),
            old(self).wf(),
        ensures
            final(self).opts() == old(self).opts(),
            final(self).wf(),
            old(self).card() is Some ==> final(self).card() == old(self).card(),
            match out {
                Step::Need(action) => final(self).busy() && final(self).live() == old(self).live()
                    && forall|replies: Seq<ReplySpec>|
                    #[trigger] old(self).on(reply@, replies) == Run::ask(
                        action@,
                        replies,
                        final(self).on(replies.first(), replies.drop_first()),
                    ),
                Step::Done(value) => !final(self).busy() && (old(self).live() && value is Ok
                    && outcome_view(value) != Ok::<OutputSpec, Error>(OutputSpec::Card(None))
                    ==> final(self).card() is Some) && forall|replies: Seq<ReplySpec>|
                    #[trigger] old(self).on(reply@, replies) == Run::done(
                        (outcome_view(value), final(self).card()),
                        replies,
                    ),
            },
    {
        let mut stage = Stage::Idle;
        core::mem::swap(&mut self.stage, &mut stage);
        match self.inner.advance(reply) {
            Step::Need(action) => {
                self.stage = stage;
                Step::Need(action)
            },
            Step::Done(value) => match stage {
                Stage::Acquiring(request) => match value {
                    Ok(Output::Card(Some(_))) => self.serve(request),
                    Ok(_) => Step::Done(Err(Error::CardNotFound)),
                    Err(e) => match request {
                        Request::CardType => Step::Done(Ok(Output::Card(None))),
                        _ => Step::Done(Err(e)),
                    },
                },
                _ => Step::Done(value),
            },
        }
    }

    /// Runs the operation that stands at `first` against recorded replies,
    /// one reply to each action, until the operation ends or the replies
    /// run out. Hands back the actions issued, the last of them unanswered
    /// if the replies ran out, and the result if the operation ended.
    ///
    /// Resuming an operation reply by reply is the same as its run on all
    /// of them: the actions are those of the run, and so is the result.
    pub fn replay(&mut self, first: Step, replies: Vec<Reply>) -> (out: (
        Vec<Action>,
        Option<Result<Output, Error>>,
    ))
        requires
            old(self).wf(),
            first is Need == old(self).busy(),
        ensures
            final(self).wf(),
            final(self).opts() == old(self).opts(),
            final(self).busy() == (out.1 is None),
            ({
                let run = continued(first, *old(self), reply_views(replies@));
                &&& action_views(out.0@) == run.sent
                &&& match out.1 {
                    Some(value) => run.end is Some && run.value() == (
                        outcome_view(value),
                        final(self).card(),
                    ),
                    None => run.end is None,
                }
            }),
    {
        let ghost entry = *self;
        let ghost all = reply_views(replies@);
        let ghost whole = continued(first, entry, all);
        let ghost recorded = replies@;
        let ghost start = first;
        let mut queue = replies;
        let mut actions: Vec<Action> = Vec::new();
        let mut step = first;
        let mut i: usize = 0;
        assert(all.skip(0) =~= all);
        assert(action_views(actions@) =~= Seq::<ActionSpec>::empty());
        loop
            invariant
                all == reply_views(recorded),
                entry == *old(self),
                start == first,
                recorded == replies@,
                whole == continued(start, entry, all),
                i <= queue@.len(),
                queue@.len() == all.len(),
                forall|j: int| i <= j < all.len() ==> queue@[j]@ == all[j],
                self.wf(),
                self.opts() == entry.opts(),
                step is Need == self.busy(),
                whole.sent == action_views(actions@) + continued(
                    step,
                    *self,
                    all.skip(i as int),
                ).sent,
                whole.end == continued(step, *self, all.skip(i as int)).end,
            decreases queue@.len() - i,
        {
            match step {
                Step::Done(value) => {
                    assert(whole.sent =~= action_views(actions@));
                    return (actions, Some(value));
                },
                Step::Need(action) => {
                    let ghost before = action_views(actions@);
                    let ghost rest = all.skip(i as int);
                    if i >= queue.len() {
                        actions.push(action);
                        assert(action_views(actions@) =~= before.push(action@));
                        assert(whole.sent =~= action_views(actions@));
                        return (actions, None);
                    }
                    let mut reply = Reply::Done;
                    core::mem::swap(&mut queue[i], &mut reply);
                    let ghost card = *self;
                    actions.push(action);
                    step = self.advance(reply);
                    i = i + 1;
                    proof {
                        assert(rest.first() == reply@);
                        assert(rest.drop_first() =~= all.skip(i as int));
                        assert(action_views(actions@) =~= before.push(action@));
                        assert(card.on(reply@, all.skip(i as int)) == continued(
                            step,
                            *self,
                            all.skip(i as int),
                        ));
                        assert(whole.sent =~= action_views(actions@) + continued(
                            step,
                            *self,
                            all.skip(i as int),
                        ).sent);
                    }
                },
            }
        }
    }
}

} // verus!
