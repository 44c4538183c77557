//! Transactions: what happens between selecting the card and deselecting
//! it again.

use crate::bus::{group_run, Action, ActionSpec, Next, Reply, ReplySpec, Run};
use crate::command::{command_run, Command};
use crate::outcome::{as_blocks, as_unit, outcome_view, Outcome, Output};
use crate::proto::{CMD12, CMD18};
use crate::register::{answer, answer_of, read_csd_run, Query, ReadCsd};
use crate::transfer::{
    prepare_inner_run, read_inner_run, settled, write_end_run, write_inner_run, EndInner,
    PrepareInner, ReadInner, WriteInner,
};
use crate::types::{blocks_view, Block, CardType, Error};
use vstd::prelude::*;

verus! {

broadcast use group_run;

/// What a transaction is to do with the card.
#[derive(Debug)]
pub enum Plan {
    /// Read this many blocks from this wire address.
    Read { count: usize, arg: u32 },
    /// Write these blocks to this wire address.
    Write { blocks: Vec<Block>, arg: u32 },
    /// Ask this of the register of the card, if there is one.
    Query { card: Option<CardType>, query: Query },
    /// Open a multiple-block read at this wire address.
    PrepareRead { arg: u32 },
    /// Open a multiple-block write of this many blocks at this wire
    /// address.
    PrepareWrite { arg: u32, len: u32 },
    /// Close a multiple-block read.
    EndRead,
    /// Close a multiple-block write.
    EndWrite,
}

/// A [`Plan`] as a mathematical value.
pub enum PlanSpec {
    Read { count: nat, arg: u32 },
    Write { blocks: Seq<Seq<u8>>, arg: u32 },
    Query { card: Option<CardType>, query: Query },
    PrepareRead { arg: u32 },
    PrepareWrite { arg: u32, len: u32 },
    EndRead,
    EndWrite,
}

impl View for Plan {
    type V = PlanSpec;

    open spec fn view(&self) -> PlanSpec {
        match self {
            Plan::Read { count, arg } => PlanSpec::Read { count: *count as nat, arg: *arg },
            Plan::Write { blocks, arg } => PlanSpec::Write {
                blocks: blocks_view(blocks@),
                arg: *arg,
            },
            Plan::Query { card, query } => PlanSpec::Query { card: *card, query: *query },
            Plan::PrepareRead { arg } => PlanSpec::PrepareRead { arg: *arg },
            Plan::PrepareWrite { arg, len } => PlanSpec::PrepareWrite { arg: *arg, len: *len },
            Plan::EndRead => PlanSpec::EndRead,
            Plan::EndWrite => PlanSpec::EndWrite,
        }
    }
}

impl PlanSpec {
    /// Whether the transaction starts by selecting the card. The closing
    /// of a multiple-block transfer finds it selected.
    pub open spec fn selects(self) -> bool {
        !(self is EndRead || self is EndWrite)
    }

    /// Whether the transaction deselects the card however it went. The
    /// opening of a multiple-block transfer leaves the card selected when
    /// it succeeds.
    pub open spec fn releases_always(self) -> bool {
        !(self is PrepareRead || self is PrepareWrite)
    }

    /// Whether the number of blocks to write fits the 32 bits in which it
    /// is announced.
    pub open spec fn fits(self) -> bool {
        self matches PlanSpec::Write { blocks, .. } ==> blocks.len() <= u32::MAX
    }
}

/// A read of the register, as an operation that answers `query`.
pub open spec fn as_answer(
    card: Option<CardType>,
    query: Query,
    run: Run<Result<Seq<u8>, Error>>,
) -> Run<Outcome> {
    Run {
        sent: run.sent,
        end: match run.end {
            None => None,
            Some((Ok(data), replies)) => Some(
                (
                    match card {
                        Some(card) => Ok(answer_of(card, query, data)),
                        None => Err(Error::CardNotFound),
                    },
                    replies,
                ),
            ),
            Some((Err(e), replies)) => Some((Err(e), replies)),
        },
    }
}

/// What a transaction does while the card is selected.
pub open spec fn body_run(plan: PlanSpec, use_crc: bool, replies: Seq<ReplySpec>) -> Run<Outcome> {
    match plan {
        PlanSpec::Read { count, arg } => as_blocks(read_inner_run(use_crc, count, arg, replies)),
        PlanSpec::Write { blocks, arg } => as_unit(write_inner_run(use_crc, blocks, arg, replies)),
        PlanSpec::Query { card, query } => as_answer(
            card,
            query,
            read_csd_run(card, use_crc, replies),
        ),
        PlanSpec::PrepareRead { arg } => as_unit(settled(command_run(CMD18, arg, replies))),
        PlanSpec::PrepareWrite { arg, len } => as_unit(prepare_inner_run(arg, len, replies)),
        PlanSpec::EndRead => as_unit(settled(command_run(CMD12, 0, replies))),
        PlanSpec::EndWrite => as_unit(write_end_run(replies)),
    }
}

/// A transaction: select the card, unless the plan finds it selected; do
/// what the plan says; deselect the card, unless the plan is an opening
/// that succeeded. A pin that cannot be driven ends the transaction with
/// [`Error::GpioError`], whatever else happened.
#[verifier::opaque]
pub open spec fn transaction_run(plan: PlanSpec, use_crc: bool, replies: Seq<ReplySpec>) -> Run<
    Outcome,
> {
    if plan.selects() {
        Run::ask(
            ActionSpec::CsLow,
            replies,
            transaction_selected(plan, use_crc, replies.first(), replies.drop_first()),
        )
    } else {
        closing(plan.releases_always(), body_run(plan, use_crc, replies))
    }
}

/// The transaction once the selection has been answered with `reply`.
pub open spec fn transaction_selected(
    plan: PlanSpec,
    use_crc: bool,
    reply: ReplySpec,
    replies: Seq<ReplySpec>,
) -> Run<Outcome> {
    match reply {
        ReplySpec::Done => closing(plan.releases_always(), body_run(plan, use_crc, replies)),
        _ => Run::done(Err(Error::GpioError), replies),
    }
}

/// The body of a transaction, and its end.
pub open spec fn closing(always: bool, body: Run<Outcome>) -> Run<Outcome> {
    body.followed_by(
        if always || body.value() is Err {
            release(body.value(), body.tail())
        } else {
            Run::done(body.value(), body.tail())
        },
    )
}

/// Deselecting the card at the end of a transaction that came to `result`.
pub open spec fn release(result: Outcome, replies: Seq<ReplySpec>) -> Run<Outcome> {
    Run::ask(
        ActionSpec::CsHigh,
        replies,
        released(result, replies.first(), replies.drop_first()),
    )
}

/// The transaction once the deselection has been answered with `reply`.
pub open spec fn released(result: Outcome, reply: ReplySpec, replies: Seq<ReplySpec>) -> Run<
    Outcome,
> {
    match reply {
        ReplySpec::Done => Run::done(result, replies),
        _ => Run::done(Err(Error::GpioError), replies),
    }
}

#[derive(Debug)]
enum Body {
    Read(ReadInner),
    Write(WriteInner),
    Query(ReadCsd, CardType, Query),
    Quiet(Command),
    Open(PrepareInner),
    End(EndInner),
}

impl Body {
    spec fn wf(self) -> bool {
        match self {
            Body::Read(read) => read.wf(),
            Body::Write(write) => write.wf(),
            Body::Query(read, _, _) => read.wf(),
            _ => true,
        }
    }

    spec fn on(self, reply: ReplySpec, replies: Seq<ReplySpec>) -> Run<Outcome> {
        match self {
            Body::Read(read) => as_blocks(read.on(reply, replies)),
            Body::Write(write) => as_unit(write.on(reply, replies)),
            Body::Query(read, card, query) => as_answer(
                Some(card),
                query,
                read.on(reply, replies),
            ),
            Body::Quiet(sent) => as_unit(settled(sent.on(reply, replies))),
            Body::Open(opened) => as_unit(opened.on(reply, replies)),
            Body::End(end) => as_unit(end.on(reply, replies)),
        }
    }

    fn start(plan: Plan, use_crc: bool) -> (out: Next<Body, Result<Output, Error>>)
        requires
            plan@.fits(),
        ensures
            match out {
                Next::Need(next, action) => next.wf() && forall|replies: Seq<ReplySpec>|
                    #[trigger] body_run(plan@, use_crc, replies) == Run::ask(
                        action@,
                        replies,
                        next.on(replies.first(), replies.drop_first()),
                    ),
                Next::Done(value) => forall|replies: Seq<ReplySpec>|
                    #[trigger] body_run(
                        plan@,
                        use_crc,
                        replies,
                    ) == Run::done(outcome_view(value), replies),
            },
            !(plan matches Plan::Query { card: None, .. }) ==> out is Need,
            out matches Next::Done(Ok(output)) ==> !(output is Card),
    {
        match plan {
            Plan::Read { count, arg } => {
                let (read, action) = ReadInner::start(use_crc, count, arg);
                Next::Need(Body::Read(read), action)
            },
            Plan::Write { blocks, arg } => {
                let (write, action) = WriteInner::start(use_crc, blocks, arg);
                Next::Need(Body::Write(write), action)
            },
            Plan::Query { card, query } => {
                reveal(read_csd_run);
                match card {
                    None => Next::Done(Err(Error::CardNotFound)),
                    Some(card) => {
                        let (read, action) = ReadCsd::start(card, use_crc);
                        Next::Need(Body::Query(read, card, query), action)
                    },
                }
            },
            Plan::PrepareRead { arg } => {
                let (sent, action) = Command::start(CMD18, arg);
                Next::Need(Body::Quiet(sent), action)
            },
            Plan::PrepareWrite { arg, len } => {
                let (opened, action) = PrepareInner::start(arg, len);
                Next::Need(Body::Open(opened), action)
            },
            Plan::EndRead => {
                let (sent, action) = Command::start(CMD12, 0);
                Next::Need(Body::Quiet(sent), action)
            },
            Plan::EndWrite => {
                let (end, action) = EndInner::start();
                Next::Need(Body::End(end), action)
            },
        }
    }

    fn step(self, reply: Reply) -> (out: Next<Body, Result<Output, Error>>)
        requires
            self.wf(),
        ensures
            match out {
                Next::Need(next, action) => next.wf() && forall|replies: Seq<ReplySpec>|
                    #[trigger] self.on(reply@, replies) == Run::ask(
                        action@,
                        replies,
                        next.on(replies.first(), replies.drop_first()),
                    ),
                Next::Done(value) => forall|replies: Seq<ReplySpec>|
                    #[trigger] self.on(reply@, replies) == Run::done(outcome_view(value), replies),
            },
            out matches Next::Done(Ok(output)) ==> !(output is Card),
    {
        match self {
            Body::Read(read) => match read.step(reply) {
                Next::Need(read, action) => Next::Need(Body::Read(read), action),
                Next::Done(Ok(blocks)) => Next::Done(Ok(Output::Blocks(blocks))),
                Next::Done(Err(e)) => Next::Done(Err(e)),
            },
            Body::Write(write) => match write.step(reply) {
                Next::Need(write, action) => Next::Need(Body::Write(write), action),
                Next::Done(Ok(_)) => Next::Done(Ok(Output::Unit)),
                Next::Done(Err(e)) => Next::Done(Err(e)),
            },
            Body::Query(read, card, query) => match read.step(reply) {
                Next::Need(read, action) => Next::Need(Body::Query(read, card, query), action),
                Next::Done(Ok(data)) => Next::Done(Ok(answer(card, query, data.as_slice()))),
                Next::Done(Err(e)) => Next::Done(Err(e)),
            },
            Body::Quiet(sent) => match sent.step(reply) {
                Next::Need(sent, action) => Next::Need(Body::Quiet(sent), action),
                Next::Done(Ok(_)) => Next::Done(Ok(Output::Unit)),
                Next::Done(Err(e)) => Next::Done(Err(e)),
            },
            Body::Open(opened) => match opened.step(reply) {
                Next::Need(opened, action) => Next::Need(Body::Open(opened), action),
                Next::Done(Ok(_)) => Next::Done(Ok(Output::Unit)),
                Next::Done(Err(e)) => Next::Done(Err(e)),
            },
            Body::End(end) => match end.step(reply) {
                Next::Need(end, action) => Next::Need(Body::End(end), action),
                Next::Done(Ok(_)) => Next::Done(Ok(Output::Unit)),
                Next::Done(Err(e)) => Next::Done(Err(e)),
            },
        }
    }
}

#[derive(Debug)]
enum TransactionPhase {
    Select(Plan),
    Body(Body, bool),
    Release(Result<Output, Error>),
}

/// A transaction in progress.
#[derive(Debug)]
pub struct Transaction {
    use_crc: bool,
    phase: TransactionPhase,
}

impl Transaction {
    /// Whether the machines inside are in order.
    pub closed spec fn wf(self) -> bool {
        match self.phase {
            TransactionPhase::Select(plan) => plan@.fits(),
            TransactionPhase::Body(body, _) => body.wf(),
            TransactionPhase::Release(result) => !(result matches Ok(output) && output is Card),
        }
    }

    /// What the transaction does once the pending action is answered with
    /// `reply` and `replies` follow.
    pub closed spec fn on(self, reply: ReplySpec, replies: Seq<ReplySpec>) -> Run<Outcome> {
        match self.phase {
            TransactionPhase::Select(plan) => transaction_selected(
                plan@,
                self.use_crc,
                reply,
                replies,
            ),
            TransactionPhase::Body(body, always) => closing(always, body.on(reply, replies)),
            TransactionPhase::Release(result) => released(outcome_view(result), reply, replies),
        }
    }

    fn close(use_crc: bool, always: bool, body: Next<Body, Result<Output, Error>>) -> (out: Next<
        Transaction,
        Result<Output, Error>,
    >)
        requires
            body matches Next::Need(inner, _) ==> inner.wf(),
            body matches Next::Done(Ok(output)) ==> !(output is Card),
        ensures
            out matches Next::Done(Ok(output)) ==> !(output is Card),
            body is Need ==> out is Need,
            match out {
                Next::Need(next, action) => next.wf() && match body {
                    Next::Need(inner, first) => forall|replies: Seq<ReplySpec>|
                        #[trigger] closing(
                            always,
                            Run::ask(
                                first@,
                                replies,
                                inner.on(replies.first(), replies.drop_first()),
                            ),
                        ) == Run::ask(
                            action@,
                            replies,
                            next.on(replies.first(), replies.drop_first()),
                        ),
                    Next::Done(value) => forall|replies: Seq<ReplySpec>|
                        #[trigger] closing(always, Run::done(outcome_view(value), replies))
                            == Run::ask(
                            action@,
                            replies,
                            next.on(replies.first(), replies.drop_first()),
                        ),
                },
                Next::Done(result) => body matches Next::Done(value) && forall|
                    replies: Seq<ReplySpec>,
                |
                    #[trigger] closing(always, Run::done(outcome_view(value), replies))
                        == Run::done(outcome_view(result), replies),
            },
    {
        match body {
            Next::Need(inner, action) => Next::Need(
                Transaction { use_crc, phase: TransactionPhase::Body(inner, always) },
                action,
            ),
            Next::Done(result) => {
                if always || result.is_err() {
                    Next::Need(
                        Transaction { use_crc, phase: TransactionPhase::Release(result) },
                        Action::CsHigh,
                    )
                } else {
                    Next::Done(result)
                }
            },
        }
    }

    /// Starts the transaction that `plan` describes.
    pub fn start(plan: Plan, use_crc: bool) -> (out: Next<Transaction, Result<Output, Error>>)
        requires
            plan@.fits(),
        ensures
            match out {
                Next::Need(next, action) => next.wf() && forall|replies: Seq<ReplySpec>|
                    #[trigger] transaction_run(plan@, use_crc, replies) == Run::ask(
                        action@,
                        replies,
                        next.on(replies.first(), replies.drop_first()),
                    ),
                Next::Done(value) => forall|replies: Seq<ReplySpec>|
                    #[trigger] transaction_run(
                        plan@,
                        use_crc,
                        replies,
                    ) == Run::done(outcome_view(value), replies),
            },
            out is Need,
            out matches Next::Done(Ok(output)) ==> !(output is Card),
    {
        reveal(transaction_run);
        match plan {
            Plan::EndRead | Plan::EndWrite => {
                let body = Body::start(plan, use_crc);
                Self::close(use_crc, true, body)
            },
            _ => Next::Need(
                Transaction { use_crc, phase: TransactionPhase::Select(plan) },
                Action::CsLow,
            ),
        }
    }

    /// Resumes the transaction with the reply to its pending action.
    pub fn step(self, reply: Reply) -> (out: Next<Transaction, Result<Output, Error>>)
        requires
            self.wf(),
        ensures
            match out {
                Next::Need(next, action) => next.wf() && forall|replies: Seq<ReplySpec>|
                    #[trigger] self.on(reply@, replies) == Run::ask(
                        action@,
                        replies,
                        next.on(replies.first(), replies.drop_first()),
                    ),
                Next::Done(value) => forall|replies: Seq<ReplySpec>|
                    #[trigger] self.on(reply@, replies) == Run::done(outcome_view(value), replies),
            },
            out matches Next::Done(Ok(output)) ==> !(output is Card),
    {
        let use_crc = self.use_crc;
        match self.phase {
            TransactionPhase::Select(plan) => match reply {
                Reply::Done => {
                    let always = match plan {
                        Plan::PrepareRead { .. } | Plan::PrepareWrite { .. } => false,
                        _ => true,
                    };
                    let body = Body::start(plan, use_crc);
                    Self::close(use_crc, always, body)
                },
                _ => Next::Done(Err(Error::GpioError)),
            },
            TransactionPhase::Body(body, always) => {
                let stepped = body.step(reply);
                Self::close(use_crc, always, stepped)
            },
            TransactionPhase::Release(result) => match reply {
                Reply::Done => Next::Done(result),
                _ => Next::Done(Err(Error::GpioError)),
            },
        }
    }
}

} // verus!
