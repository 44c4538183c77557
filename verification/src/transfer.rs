//! Reading and writing blocks: the command sequences between selecting the
//! card and deselecting it.

use crate::bus::{group_run, Action, ActionSpec, Next, Reply, ReplySpec, Run};
use crate::command::{acmd_run, command_run, Acmd, Command};
use crate::data::{read_data_run, write_data_run, DataIn, DataOut};
use crate::delay::{Delay, DEFAULT_WRITE_RETRIES};
use crate::poll::{poll_run, Poll, Until};
use crate::proto::{
    ACMD23, CMD12, CMD13, CMD17, CMD18, CMD24, CMD25, DATA_START_BLOCK, STOP_TRAN_TOKEN,
    WRITE_MULTIPLE_TOKEN,
};
use crate::types::{blocks_view, Block, Error, BLOCK_LEN};
use vstd::prelude::*;

verus! {

broadcast use group_run;

/// A command of which only success or failure is kept.
pub open spec fn settled(sent: Run<Result<u8, Error>>) -> Run<Result<(), Error>> {
    sent.followed_by(
        Run::done(
            match sent.value() {
                Ok(_) => Ok(()),
                Err(e) => Err(e),
            },
            sent.tail(),
        ),
    )
}

/// The wait, within the budget of a write, for the card to release the bus.
pub open spec fn write_wait_run(replies: Seq<ReplySpec>) -> Run<Result<u8, Error>> {
    poll_run(Until::Idle, DEFAULT_WRITE_RETRIES as nat, Error::TimeoutWaitNotBusy, replies)
}

/// Reading `count` blocks from the wire address `arg`. One block is read
/// with the single-block command. Any other number is read with the
/// multiple-block command, one data packet per block, and closed with the
/// stop command; a packet that fails ends the read without it.
#[verifier::opaque]
pub open spec fn read_inner_run(
    use_crc: bool,
    count: nat,
    arg: u32,
    replies: Seq<ReplySpec>,
) -> Run<
    Result<Seq<Seq<u8>>, Error>,
> {
    if count == 1 {
        read_single_sent(use_crc, command_run(CMD17, arg, replies))
    } else {
        read_multi_sent(use_crc, count, command_run(CMD18, arg, replies))
    }
}

/// The single-block command, and the read after it.
pub open spec fn read_single_sent(use_crc: bool, sent: Run<Result<u8, Error>>) -> Run<
    Result<Seq<Seq<u8>>, Error>,
> {
    sent.followed_by(
        match sent.value() {
            Err(e) => Run::done(Err(e), sent.tail()),
            Ok(_) => read_single_data(read_data_run(BLOCK_LEN as nat, use_crc, sent.tail())),
        },
    )
}

/// The only packet of a single-block read, and the read after it.
pub open spec fn read_single_data(data: Run<Result<Seq<u8>, Error>>) -> Run<
    Result<Seq<Seq<u8>>, Error>,
> {
    data.followed_by(
        match data.value() {
            Err(e) => Run::done(Err(e), data.tail()),
            Ok(payload) => Run::done(Ok(seq![payload]), data.tail()),
        },
    )
}

/// The multiple-block command, and the read after it.
pub open spec fn read_multi_sent(use_crc: bool, count: nat, sent: Run<Result<u8, Error>>) -> Run<
    Result<Seq<Seq<u8>>, Error>,
> {
    sent.followed_by(
        match sent.value() {
            Err(e) => Run::done(Err(e), sent.tail()),
            Ok(_) => read_blocks_run(use_crc, count, Seq::empty(), sent.tail()),
        },
    )
}

/// The rest of a multiple-block read with `left` blocks to go, after the
/// blocks `got`.
pub open spec fn read_blocks_run(
    use_crc: bool,
    left: nat,
    got: Seq<Seq<u8>>,
    replies: Seq<ReplySpec>,
) -> Run<Result<Seq<Seq<u8>>, Error>>
    decreases left, 1nat,
{
    if left == 0 {
        read_stopped(got, command_run(CMD12, 0, replies))
    } else {
        read_block(use_crc, left, got, read_data_run(BLOCK_LEN as nat, use_crc, replies))
    }
}

/// One packet of a multiple-block read, and the read after it.
pub open spec fn read_block(
    use_crc: bool,
    left: nat,
    got: Seq<Seq<u8>>,
    data: Run<Result<Seq<u8>, Error>>,
) -> Run<Result<Seq<Seq<u8>>, Error>>
    decreases left, 0nat,
{
    data.followed_by(
        match data.value() {
            Err(e) => Run::done(Err(e), data.tail()),
            Ok(payload) => if left == 0 {
                Run::done(Ok(got), data.tail())
            } else {
                read_blocks_run(use_crc, (left - 1) as nat, got.push(payload), data.tail())
            },
        },
    )
}

/// The stop command, and the read after it.
pub open spec fn read_stopped(got: Seq<Seq<u8>>, sent: Run<Result<u8, Error>>) -> Run<
    Result<Seq<Seq<u8>>, Error>,
> {
    sent.followed_by(
        match sent.value() {
            Err(e) => Run::done(Err(e), sent.tail()),
            Ok(_) => Run::done(Ok(got), sent.tail()),
        },
    )
}

/// Blocks, or the error in their place, as a mathematical value.
pub open spec fn blocks_result(res: Result<Vec<Block>, Error>) -> Result<Seq<Seq<u8>>, Error> {
    match res {
        Ok(blocks) => Ok(blocks_view(blocks@)),
        Err(e) => Err(e),
    }
}

#[derive(Debug)]
enum ReadPhase {
    Single(Command),
    SingleData(DataIn),
    Multi(Command, usize),
    MultiData(DataIn, usize, Vec<Block>),
    Stop(Command, Vec<Block>),
}

/// A read of blocks in progress.
#[derive(Debug)]
pub struct ReadInner {
    use_crc: bool,
    phase: ReadPhase,
}

impl ReadInner {
    /// Whether the packet being read is a block, and one that is still
    /// wanted.
    pub closed spec fn wf(self) -> bool {
        match self.phase {
            ReadPhase::SingleData(data) => data.wf() && data.len() == BLOCK_LEN,
            ReadPhase::MultiData(data, left, _) => data.wf() && data.len() == BLOCK_LEN && left > 0,
            _ => true,
        }
    }

    /// What the read does once the pending action is answered with `reply`
    /// and `replies` follow.
    pub closed spec fn on(self, reply: ReplySpec, replies: Seq<ReplySpec>) -> Run<
        Result<Seq<Seq<u8>>, Error>,
    > {
        match self.phase {
            ReadPhase::Single(sent) => read_single_sent(self.use_crc, sent.on(reply, replies)),
            ReadPhase::SingleData(data) => read_single_data(data.on(reply, replies)),
            ReadPhase::Multi(sent, count) => read_multi_sent(
                self.use_crc,
                count as nat,
                sent.on(reply, replies),
            ),
            ReadPhase::MultiData(data, left, got) => read_block(
                self.use_crc,
                left as nat,
                blocks_view(got@),
                data.on(reply, replies),
            ),
            ReadPhase::Stop(sent, got) => read_stopped(blocks_view(got@), sent.on(reply, replies)),
        }
    }

    /// Starts a read of `count` blocks from the wire address `arg`.
    pub fn start(use_crc: bool, count: usize, arg: u32) -> (out: (ReadInner, Action))
        ensures
            out.0.wf(),
            forall|replies: Seq<ReplySpec>|
                #[trigger] read_inner_run(use_crc, count as nat, arg, replies) == Run::ask(
                    out.1@,
                    replies,
                    out.0.on(replies.first(), replies.drop_first()),
                ),
    {
        reveal(read_inner_run);
        if count == 1 {
            let (sent, action) = Command::start(CMD17, arg);
            (ReadInner { use_crc, phase: ReadPhase::Single(sent) }, action)
        } else {
            let (sent, action) = Command::start(CMD18, arg);
            (ReadInner { use_crc, phase: ReadPhase::Multi(sent, count) }, action)
        }
    }

    fn blocks(use_crc: bool, left: usize, got: Vec<Block>) -> (out: Next<
        ReadInner,
        Result<Vec<Block>, Error>,
    >)
        ensures
            out matches Next::Need(next, action) && next.wf() && forall|replies: Seq<ReplySpec>|
                #[trigger] read_blocks_run(use_crc, left as nat, blocks_view(got@), replies)
                    == Run::ask(action@, replies, next.on(replies.first(), replies.drop_first())),
    {
        if left == 0 {
            let (sent, action) = Command::start(CMD12, 0);
            Next::Need(ReadInner { use_crc, phase: ReadPhase::Stop(sent, got) }, action)
        } else {
            let (data, action) = DataIn::start(BLOCK_LEN, use_crc);
            Next::Need(ReadInner { use_crc, phase: ReadPhase::MultiData(data, left, got) }, action)
        }
    }

    /// Resumes the read with the reply to its pending action.
    pub fn step(self, reply: Reply) -> (out: Next<ReadInner, Result<Vec<Block>, Error>>)
        requires
            self.wf(),
        ensures
            match out {
                Next::Need(next, action) => next.wf() && forall|replies: Seq<ReplySpec>|
                    #[trigger] self.on(reply@, replies) == Run::ask(
                        action@,
                        replies,
                        next.on(replies.first(), replies.drop_first()),
                    ),
                Next::Done(value) => forall|replies: Seq<ReplySpec>|
                    #[trigger] self.on(reply@, replies) == Run::done(blocks_result(value), replies),
            },
    {
        let use_crc = self.use_crc;
        match self.phase {
            ReadPhase::Single(sent) => match sent.step(reply) {
                Next::Need(sent, action) => Next::Need(
                    ReadInner { use_crc, phase: ReadPhase::Single(sent) },
                    action,
                ),
                Next::Done(Err(e)) => Next::Done(Err(e)),
                Next::Done(Ok(_)) => {
                    let (data, action) = DataIn::start(BLOCK_LEN, use_crc);
                    Next::Need(ReadInner { use_crc, phase: ReadPhase::SingleData(data) }, action)
                },
            },
            ReadPhase::SingleData(data) => match data.step(reply) {
                Next::Need(data, action) => Next::Need(
                    ReadInner { use_crc, phase: ReadPhase::SingleData(data) },
                    action,
                ),
                Next::Done(Err(e)) => Next::Done(Err(e)),
                Next::Done(Ok(payload)) => {
                    let mut got: Vec<Block> = Vec::new();
                    got.push(Block::from_bytes(payload.as_slice()));
                    assert(blocks_view(got@) =~= seq![payload@]);
                    Next::Done(Ok(got))
                },
            },
            ReadPhase::Multi(sent, count) => match sent.step(reply) {
                Next::Need(sent, action) => Next::Need(
                    ReadInner { use_crc, phase: ReadPhase::Multi(sent, count) },
                    action,
                ),
                Next::Done(Err(e)) => Next::Done(Err(e)),
                Next::Done(Ok(_)) => {
                    let got: Vec<Block> = Vec::new();
                    assert(blocks_view(got@) =~= Seq::<Seq<u8>>::empty());
                    Self::blocks(use_crc, count, got)
                },
            },
            ReadPhase::MultiData(data, left, got) => {
                reveal_with_fuel(read_block, 2);
                match data.step(reply) {
                    Next::Need(data, action) => Next::Need(
                        ReadInner { use_crc, phase: ReadPhase::MultiData(data, left, got) },
                        action,
                    ),
                    Next::Done(Err(e)) => Next::Done(Err(e)),
                    Next::Done(Ok(payload)) => {
                        let ghost before = blocks_view(got@);
                        let mut got = got;
                        got.push(Block::from_bytes(payload.as_slice()));
                        assert(blocks_view(got@) =~= before.push(payload@));
                        let out = Self::blocks(use_crc, left - 1, got);
                        proof {
                            assert forall|replies: Seq<ReplySpec>|
                                #[trigger] self.on(reply@, replies) == read_blocks_run(
                                    use_crc,
                                    (left - 1) as nat,
                                    blocks_view(got@),
                                    replies,
                                ) by {}
                        }
                        out
                    },
                }
            },
            ReadPhase::Stop(sent, got) => match sent.step(reply) {
                Next::Need(sent, action) => Next::Need(
                    ReadInner { use_crc, phase: ReadPhase::Stop(sent, got) },
                    action,
                ),
                Next::Done(Err(e)) => Next::Done(Err(e)),
                Next::Done(Ok(_)) => Next::Done(Ok(got)),
            },
        }
    }
}

/// Opening a multiple-block write at the wire address `arg`: announce the
/// number of blocks, so that the card may erase ahead; wait for the card to
/// release the bus; send the multiple-block command.
#[verifier::opaque]
pub open spec fn prepare_inner_run(arg: u32, len: u32, replies: Seq<ReplySpec>) -> Run<
    Result<(), Error>,
> {
    prepare_announced(arg, acmd_run(ACMD23, len, replies))
}

/// The announcement, and the opening after it.
pub open spec fn prepare_announced(arg: u32, sent: Run<Result<u8, Error>>) -> Run<
    Result<(), Error>,
> {
    sent.followed_by(
        match sent.value() {
            Err(e) => Run::done(Err(e), sent.tail()),
            Ok(_) => prepare_waited(arg, write_wait_run(sent.tail())),
        },
    )
}

/// The wait for the bus, and the opening after it.
pub open spec fn prepare_waited(arg: u32, busy: Run<Result<u8, Error>>) -> Run<Result<(), Error>> {
    busy.followed_by(
        match busy.value() {
            Err(e) => Run::done(Err(e), busy.tail()),
            Ok(_) => settled(command_run(CMD25, arg, busy.tail())),
        },
    )
}

#[derive(Debug)]
enum PreparePhase {
    Announce(Acmd),
    Wait(Poll),
    Open(Command),
}

/// The opening of a multiple-block write, in progress.
#[derive(Debug)]
pub struct PrepareInner {
    arg: u32,
    phase: PreparePhase,
}

impl PrepareInner {
    /// What the opening does once the pending action is answered with
    /// `reply` and `replies` follow.
    pub closed spec fn on(self, reply: ReplySpec, replies: Seq<ReplySpec>) -> Run<
        Result<(), Error>,
    > {
        match self.phase {
            PreparePhase::Announce(sent) => prepare_announced(self.arg, sent.on(reply, replies)),
            PreparePhase::Wait(busy) => prepare_waited(self.arg, busy.on(reply, replies)),
            PreparePhase::Open(sent) => settled(sent.on(reply, replies)),
        }
    }

    /// Starts the opening of a write of `len` blocks at the wire address
    /// `arg`.
    pub fn start(arg: u32, len: u32) -> (out: (PrepareInner, Action))
        ensures
            forall|replies: Seq<ReplySpec>|
                #[trigger] prepare_inner_run(arg, len, replies) == Run::ask(
                    out.1@,
                    replies,
                    out.0.on(replies.first(), replies.drop_first()),
                ),
    {
        reveal(prepare_inner_run);
        let (sent, action) = Acmd::start(ACMD23, len);
        (PrepareInner { arg, phase: PreparePhase::Announce(sent) }, action)
    }

    /// Resumes the opening with the reply to its pending action.
    pub fn step(self, reply: Reply) -> (out: Next<PrepareInner, Result<(), Error>>)
        ensures
            match out {
                Next::Need(next, action) => forall|replies: Seq<ReplySpec>|
                    #[trigger] self.on(reply@, replies) == Run::ask(
                        action@,
                        replies,
                        next.on(replies.first(), replies.drop_first()),
                    ),
                Next::Done(value) => forall|replies: Seq<ReplySpec>|
                    #[trigger] self.on(reply@, replies) == Run::done(value, replies),
            },
    {
        let arg = self.arg;
        match self.phase {
            PreparePhase::Announce(sent) => match sent.step(reply) {
                Next::Need(sent, action) => Next::Need(
                    PrepareInner { arg, phase: PreparePhase::Announce(sent) },
                    action,
                ),
                Next::Done(Err(e)) => Next::Done(Err(e)),
                Next::Done(Ok(_)) => {
                    let (busy, action) = Poll::start(
                        Until::Idle,
                        Delay::new_write(),
                        Error::TimeoutWaitNotBusy,
                    );
                    Next::Need(PrepareInner { arg, phase: PreparePhase::Wait(busy) }, action)
                },
            },
            PreparePhase::Wait(busy) => match busy.step(reply) {
                Next::Need(busy, action) => Next::Need(
                    PrepareInner { arg, phase: PreparePhase::Wait(busy) },
                    action,
                ),
                Next::Done(Err(e)) => Next::Done(Err(e)),
                Next::Done(Ok(_)) => {
                    let (sent, action) = Command::start(CMD25, arg);
                    Next::Need(PrepareInner { arg, phase: PreparePhase::Open(sent) }, action)
                },
            },
            PreparePhase::Open(sent) => match sent.step(reply) {
                Next::Need(sent, action) => Next::Need(
                    PrepareInner { arg, phase: PreparePhase::Open(sent) },
                    action,
                ),
                Next::Done(Err(e)) => Next::Done(Err(e)),
                Next::Done(Ok(_)) => Next::Done(Ok(())),
            },
        }
    }
}

/// One block of a multiple-block write: wait for the card to release the
/// bus, and send the block as a data packet.
#[verifier::opaque]
pub open spec fn write_block_run(block: Seq<u8>, use_crc: bool, replies: Seq<ReplySpec>) -> Run<
    Result<(), Error>,
> {
    write_block_waited(block, use_crc, write_wait_run(replies))
}

/// The wait for the bus, and the block after it.
pub open spec fn write_block_waited(
    block: Seq<u8>,
    use_crc: bool,
    busy: Run<Result<u8, Error>>,
) -> Run<Result<(), Error>> {
    busy.followed_by(
        match busy.value() {
            Err(e) => Run::done(Err(e), busy.tail()),
            Ok(_) => write_data_run(WRITE_MULTIPLE_TOKEN, block, use_crc, busy.tail()),
        },
    )
}

#[derive(Debug)]
enum BlockOutPhase {
    Wait(Poll, Vec<u8>),
    Data(DataOut),
}

/// The writing of one block of a multiple-block write, in progress.
#[derive(Debug)]
pub struct BlockOut {
    use_crc: bool,
    phase: BlockOutPhase,
}

impl BlockOut {
    /// Whether the packet being written is in order.
    pub closed spec fn wf(self) -> bool {
        match self.phase {
            BlockOutPhase::Data(data) => data.wf(),
            _ => true,
        }
    }

    /// What the writing does once the pending action is answered with
    /// `reply` and `replies` follow.
    pub closed spec fn on(self, reply: ReplySpec, replies: Seq<ReplySpec>) -> Run<
        Result<(), Error>,
    > {
        match self.phase {
            BlockOutPhase::Wait(busy, block) => write_block_waited(
                block@,
                self.use_crc,
                busy.on(reply, replies),
            ),
            BlockOutPhase::Data(data) => data.on(reply, replies),
        }
    }

    /// Starts the writing of `block`.
    pub fn start(block: Vec<u8>, use_crc: bool) -> (out: (BlockOut, Action))
        ensures
            out.0.wf(),
            forall|replies: Seq<ReplySpec>|
                #[trigger] write_block_run(block@, use_crc, replies) == Run::ask(
                    out.1@,
                    replies,
                    out.0.on(replies.first(), replies.drop_first()),
                ),
    {
        reveal(write_block_run);
        let (busy, action) = Poll::start(
            Until::Idle,
            Delay::new_write(),
            Error::TimeoutWaitNotBusy,
        );
        (BlockOut { use_crc, phase: BlockOutPhase::Wait(busy, block) }, action)
    }

    /// Resumes the writing with the reply to its pending action.
    pub fn step(self, reply: Reply) -> (out: Next<BlockOut, Result<(), Error>>)
        requires
            self.wf(),
        ensures
            match out {
                Next::Need(next, action) => next.wf() && forall|replies: Seq<ReplySpec>|
                    #[trigger] self.on(reply@, replies) == Run::ask(
                        action@,
                        replies,
                        next.on(replies.first(), replies.drop_first()),
                    ),
                Next::Done(value) => forall|replies: Seq<ReplySpec>|
                    #[trigger] self.on(reply@, replies) == Run::done(value, replies),
            },
    {
        let use_crc = self.use_crc;
        match self.phase {
            BlockOutPhase::Wait(busy, block) => match busy.step(reply) {
                Next::Need(busy, action) => Next::Need(
                    BlockOut { use_crc, phase: BlockOutPhase::Wait(busy, block) },
                    action,
                ),
                Next::Done(Err(e)) => Next::Done(Err(e)),
                Next::Done(Ok(_)) => {
                    let (data, action) = DataOut::start(WRITE_MULTIPLE_TOKEN, block, use_crc);
                    Next::Need(BlockOut { use_crc, phase: BlockOutPhase::Data(data) }, action)
                },
            },
            BlockOutPhase::Data(data) => match data.step(reply) {
                Next::Need(data, action) => Next::Need(
                    BlockOut { use_crc, phase: BlockOutPhase::Data(data) },
                    action,
                ),
                Next::Done(value) => Next::Done(value),
            },
        }
    }
}

/// Closing a multiple-block write: wait for the card to release the bus,
/// and send the stop token. The token is a single byte: no checksum follows
/// it and no response to it is awaited.
#[verifier::opaque]
pub open spec fn write_end_run(replies: Seq<ReplySpec>) -> Run<Result<(), Error>> {
    write_end_waited(write_wait_run(replies))
}

/// The wait for the bus, and the closing after it.
pub open spec fn write_end_waited(busy: Run<Result<u8, Error>>) -> Run<Result<(), Error>> {
    busy.followed_by(
        match busy.value() {
            Err(e) => Run::done(Err(e), busy.tail()),
            Ok(_) => Run::ask(
                ActionSpec::Transfer(STOP_TRAN_TOKEN),
                busy.tail(),
                write_end_token(busy.tail().first(), busy.tail().drop_first()),
            ),
        },
    )
}

/// The closing once the transfer of the stop token has been answered with
/// `reply`.
pub open spec fn write_end_token(reply: ReplySpec, replies: Seq<ReplySpec>) -> Run<
    Result<(), Error>,
> {
    match reply {
        ReplySpec::Byte(_) => Run::done(Ok(()), replies),
        _ => Run::done(Err(Error::Transport), replies),
    }
}

#[derive(Debug)]
enum EndPhase {
    Wait(Poll),
    Token,
}

/// The closing of a multiple-block write, in progress.
#[derive(Debug)]
pub struct EndInner {
    phase: EndPhase,
}

impl EndInner {
    /// What the closing does once the pending action is answered with
    /// `reply` and `replies` follow.
    pub closed spec fn on(self, reply: ReplySpec, replies: Seq<ReplySpec>) -> Run<
        Result<(), Error>,
    > {
        match self.phase {
            EndPhase::Wait(busy) => write_end_waited(busy.on(reply, replies)),
            EndPhase::Token => write_end_token(reply, replies),
        }
    }

    /// Starts the closing.
    pub fn start() -> (out: (EndInner, Action))
        ensures
            forall|replies: Seq<ReplySpec>|
                #[trigger] write_end_run(replies) == Run::ask(
                    out.1@,
                    replies,
                    out.0.on(replies.first(), replies.drop_first()),
                ),
    {
        reveal(write_end_run);
        let (busy, action) = Poll::start(
            Until::Idle,
            Delay::new_write(),
            Error::TimeoutWaitNotBusy,
        );
        (EndInner { phase: EndPhase::Wait(busy) }, action)
    }

    /// Resumes the closing with the reply to its pending action.
    pub fn step(self, reply: Reply) -> (out: Next<EndInner, Result<(), Error>>)
        ensures
            match out {
                Next::Need(next, action) => forall|replies: Seq<ReplySpec>|
                    #[trigger] self.on(reply@, replies) == Run::ask(
                        action@,
                        replies,
                        next.on(replies.first(), replies.drop_first()),
                    ),
                Next::Done(value) => forall|replies: Seq<ReplySpec>|
                    #[trigger] self.on(reply@, replies) == Run::done(value, replies),
            },
    {
        match self.phase {
            EndPhase::Wait(busy) => match busy.step(reply) {
                Next::Need(busy, action) => Next::Need(
                    EndInner { phase: EndPhase::Wait(busy) },
                    action,
                ),
                Next::Done(Err(e)) => Next::Done(Err(e)),
                Next::Done(Ok(_)) => Next::Need(
                    EndInner { phase: EndPhase::Token },
                    Action::Transfer(STOP_TRAN_TOKEN),
                ),
            },
            EndPhase::Token => match reply {
                Reply::Byte(_) => Next::Done(Ok(())),
                _ => Next::Done(Err(Error::Transport)),
            },
        }
    }
}

/// Writing `blocks` to the wire address `arg`. One block is written with
/// the single-block command and a data packet; once the card has released
/// the bus, its status is asked for, and both status bytes must be zero.
/// Any other number of blocks is written as a multiple-block write: opened,
/// one packet per block, closed.
#[verifier::opaque]
pub open spec fn write_inner_run(
    use_crc: bool,
    blocks: Seq<Seq<u8>>,
    arg: u32,
    replies: Seq<ReplySpec>,
) -> Run<Result<(), Error>> {
    if blocks.len() == 1 {
        write_single_sent(use_crc, blocks[0], command_run(CMD24, arg, replies))
    } else {
        write_multi_opened(use_crc, blocks, prepare_inner_run(arg, blocks.len() as u32, replies))
    }
}

/// The single-block command, and the write after it.
pub open spec fn write_single_sent(
    use_crc: bool,
    block: Seq<u8>,
    sent: Run<Result<u8, Error>>,
) -> Run<Result<(), Error>> {
    sent.followed_by(
        match sent.value() {
            Err(e) => Run::done(Err(e), sent.tail()),
            Ok(_) => write_single_data(
                write_data_run(DATA_START_BLOCK, block, use_crc, sent.tail()),
            ),
        },
    )
}

/// The packet of a single-block write, and the write after it.
pub open spec fn write_single_data(data: Run<Result<(), Error>>) -> Run<Result<(), Error>> {
    data.followed_by(
        match data.value() {
            Err(e) => Run::done(Err(e), data.tail()),
            Ok(_) => write_single_waited(write_wait_run(data.tail())),
        },
    )
}

/// The wait for the bus after a single-block write, and the status check
/// after it.
pub open spec fn write_single_waited(busy: Run<Result<u8, Error>>) -> Run<Result<(), Error>> {
    busy.followed_by(
        match busy.value() {
            Err(e) => Run::done(Err(e), busy.tail()),
            Ok(_) => write_single_status(command_run(CMD13, 0, busy.tail())),
        },
    )
}

/// The status command, and the check of the second status byte after it.
pub open spec fn write_single_status(sent: Run<Result<u8, Error>>) -> Run<Result<(), Error>> {
    sent.followed_by(
        match sent.value() {
            Err(e) => Run::done(Err(e), sent.tail()),
            Ok(r1) => if r1 != 0 {
                Run::done(Err(Error::WriteError), sent.tail())
            } else {
                Run::ask(
                    ActionSpec::Transfer(0xFF),
                    sent.tail(),
                    write_single_second(sent.tail().first(), sent.tail().drop_first()),
                )
            },
        },
    )
}

/// The write once the transfer of the second status byte has been answered
/// with `reply`.
pub open spec fn write_single_second(reply: ReplySpec, replies: Seq<ReplySpec>) -> Run<
    Result<(), Error>,
> {
    match reply {
        ReplySpec::Byte(status) => if status != 0 {
            Run::done(Err(Error::WriteError), replies)
        } else {
            Run::done(Ok(()), replies)
        },
        _ => Run::done(Err(Error::Transport), replies),
    }
}

/// The opening of a multiple-block write, and the write after it.
pub open spec fn write_multi_opened(
    use_crc: bool,
    blocks: Seq<Seq<u8>>,
    opened: Run<Result<(), Error>>,
) -> Run<Result<(), Error>> {
    opened.followed_by(
        match opened.value() {
            Err(e) => Run::done(Err(e), opened.tail()),
            Ok(_) => write_blocks_run(use_crc, blocks, 0, opened.tail()),
        },
    )
}

/// The rest of a multiple-block write, from the block at `next` on.
pub open spec fn write_blocks_run(
    use_crc: bool,
    blocks: Seq<Seq<u8>>,
    next: nat,
    replies: Seq<ReplySpec>,
) -> Run<Result<(), Error>>
    decreases blocks.len() - next, 1nat,
{
    if next >= blocks.len() {
        write_end_run(replies)
    } else {
        write_block_sent(
            use_crc,
            blocks,
            next,
            write_block_run(blocks[next as int], use_crc, replies),
        )
    }
}

/// One block of a multiple-block write, and the write after it.
pub open spec fn write_block_sent(
    use_crc: bool,
    blocks: Seq<Seq<u8>>,
    next: nat,
    sent: Run<Result<(), Error>>,
) -> Run<Result<(), Error>>
    decreases blocks.len() - next, 0nat,
{
    sent.followed_by(
        match sent.value() {
            Err(e) => Run::done(Err(e), sent.tail()),
            Ok(_) => if next >= blocks.len() {
                Run::done(Ok(()), sent.tail())
            } else {
                write_blocks_run(use_crc, blocks, next + 1, sent.tail())
            },
        },
    )
}

#[derive(Debug)]
enum WritePhase {
    Single(Command, Vec<u8>),
    SingleData(DataOut),
    SingleWait(Poll),
    Status(Command),
    Second,
    Open(PrepareInner),
    Block(BlockOut, usize),
    End(EndInner),
}

/// A write of blocks in progress.
#[derive(Debug)]
pub struct WriteInner {
    use_crc: bool,
    blocks: Vec<Block>,
    phase: WritePhase,
}

impl WriteInner {
    /// Whether the packet being written is in order, and the block that it
    /// carries one of those to write.
    pub closed spec fn wf(self) -> bool {
        match self.phase {
            WritePhase::SingleData(data) => data.wf(),
            WritePhase::Block(sent, next) => sent.wf() && next < self.blocks@.len(),
            _ => true,
        }
    }

    /// What the write does once the pending action is answered with `reply`
    /// and `replies` follow.
    pub closed spec fn on(self, reply: ReplySpec, replies: Seq<ReplySpec>) -> Run<
        Result<(), Error>,
    > {
        match self.phase {
            WritePhase::Single(sent, block) => write_single_sent(
                self.use_crc,
                block@,
                sent.on(reply, replies),
            ),
            WritePhase::SingleData(data) => write_single_data(data.on(reply, replies)),
            WritePhase::SingleWait(busy) => write_single_waited(busy.on(reply, replies)),
            WritePhase::Status(sent) => write_single_status(sent.on(reply, replies)),
            WritePhase::Second => write_single_second(reply, replies),
            WritePhase::Open(opened) => write_multi_opened(
                self.use_crc,
                blocks_view(self.blocks@),
                opened.on(reply, replies),
            ),
            WritePhase::Block(sent, next) => write_block_sent(
                self.use_crc,
                blocks_view(self.blocks@),
                next as nat,
                sent.on(reply, replies),
            ),
            WritePhase::End(end) => end.on(reply, replies),
        }
    }

    /// Starts a write of `blocks` to the wire address `arg`.
    pub fn start(use_crc: bool, blocks: Vec<Block>, arg: u32) -> (out: (WriteInner, Action))
        requires
            blocks@.len() <= u32::MAX,
        ensures
            out.0.wf(),
            forall|replies: Seq<ReplySpec>|
                #[trigger] write_inner_run(use_crc, blocks_view(blocks@), arg, replies) == Run::ask(
                    out.1@,
                    replies,
                    out.0.on(replies.first(), replies.drop_first()),
                ),
    {
        reveal(write_inner_run);
        if blocks.len() == 1 {
            let block = blocks[0].to_vec();
            let (sent, action) = Command::start(CMD24, arg);
            (WriteInner { use_crc, blocks, phase: WritePhase::Single(sent, block) }, action)
        } else {
            let (opened, action) = PrepareInner::start(arg, blocks.len() as u32);
            (WriteInner { use_crc, blocks, phase: WritePhase::Open(opened) }, action)
        }
    }

    fn blocks(use_crc: bool, blocks: Vec<Block>, next: usize) -> (out: Next<
        WriteInner,
        Result<(), Error>,
    >)
        ensures
            out matches Next::Need(machine, action) && machine.wf() && forall|
                replies: Seq<ReplySpec>,
            |
                #[trigger] write_blocks_run(use_crc, blocks_view(blocks@), next as nat, replies)
                    == Run::ask(
                        action@,
                        replies,
                        machine.on(replies.first(), replies.drop_first()),
                    ),
    {
        if next >= blocks.len() {
            let (end, action) = EndInner::start();
            Next::Need(WriteInner { use_crc, blocks, phase: WritePhase::End(end) }, action)
        } else {
            let block = blocks[next].to_vec();
            let (sent, action) = BlockOut::start(block, use_crc);
            Next::Need(WriteInner { use_crc, blocks, phase: WritePhase::Block(sent, next) }, action)
        }
    }

    /// Resumes the write with the reply to its pending action.
    pub fn step(self, reply: Reply) -> (out: Next<WriteInner, Result<(), Error>>)
        requires
            self.wf(),
        ensures
            match out {
                Next::Need(next, action) => next.wf() && forall|replies: Seq<ReplySpec>|
                    #[trigger] self.on(reply@, replies) == Run::ask(
                        action@,
                        replies,
                        next.on(replies.first(), replies.drop_first()),
                    ),
                Next::Done(value) => forall|replies: Seq<ReplySpec>|
                    #[trigger] self.on(reply@, replies) == Run::done(value, replies),
            },
    {
        let use_crc = self.use_crc;
        let blocks = self.blocks;
        match self.phase {
            WritePhase::Single(sent, block) => match sent.step(reply) {
                Next::Need(sent, action) => Next::Need(
                    WriteInner { use_crc, blocks, phase: WritePhase::Single(sent, block) },
                    action,
                ),
                Next::Done(Err(e)) => Next::Done(Err(e)),
                Next::Done(Ok(_)) => {
                    let (data, action) = DataOut::start(DATA_START_BLOCK, block, use_crc);
                    Next::Need(
                        WriteInner { use_crc, blocks, phase: WritePhase::SingleData(data) },
                        action,
                    )
                },
            },
            WritePhase::SingleData(data) => match data.step(reply) {
                Next::Need(data, action) => Next::Need(
                    WriteInner { use_crc, blocks, phase: WritePhase::SingleData(data) },
                    action,
                ),
                Next::Done(Err(e)) => Next::Done(Err(e)),
                Next::Done(Ok(_)) => {
                    let (busy, action) = Poll::start(
                        Until::Idle,
                        Delay::new_write(),
                        Error::TimeoutWaitNotBusy,
                    );
                    Next::Need(
                        WriteInner { use_crc, blocks, phase: WritePhase::SingleWait(busy) },
                        action,
                    )
                },
            },
            WritePhase::SingleWait(busy) => match busy.step(reply) {
                Next::Need(busy, action) => Next::Need(
                    WriteInner { use_crc, blocks, phase: WritePhase::SingleWait(busy) },
                    action,
                ),
                Next::Done(Err(e)) => Next::Done(Err(e)),
                Next::Done(Ok(_)) => {
                    let (sent, action) = Command::start(CMD13, 0);
                    Next::Need(
                        WriteInner { use_crc, blocks, phase: WritePhase::Status(sent) },
                        action,
                    )
                },
            },
            WritePhase::Status(sent) => match sent.step(reply) {
                Next::Need(sent, action) => Next::Need(
                    WriteInner { use_crc, blocks, phase: WritePhase::Status(sent) },
                    action,
                ),
                Next::Done(Err(e)) => Next::Done(Err(e)),
                Next::Done(Ok(r1)) => {
                    if r1 != 0 {
                        Next::Done(Err(Error::WriteError))
                    } else {
                        Next::Need(
                            WriteInner { use_crc, blocks, phase: WritePhase::Second },
                            Action::Transfer(0xFF),
                        )
                    }
                },
            },
            WritePhase::Second => match reply {
                Reply::Byte(status) => {
                    if status != 0 {
                        Next::Done(Err(Error::WriteError))
                    } else {
                        Next::Done(Ok(()))
                    }
                },
                _ => Next::Done(Err(Error::Transport)),
            },
            WritePhase::Open(opened) => match opened.step(reply) {
                Next::Need(opened, action) => Next::Need(
                    WriteInner { use_crc, blocks, phase: WritePhase::Open(opened) },
                    action,
                ),
                Next::Done(Err(e)) => Next::Done(Err(e)),
                Next::Done(Ok(_)) => Self::blocks(use_crc, blocks, 0),
            },
            WritePhase::Block(sent, next) => {
                reveal_with_fuel(write_block_sent, 2);
                match sent.step(reply) {
                    Next::Need(sent, action) => Next::Need(
                        WriteInner { use_crc, blocks, phase: WritePhase::Block(sent, next) },
                        action,
                    ),
                    Next::Done(Err(e)) => Next::Done(Err(e)),
                    Next::Done(Ok(_)) => {
                        let count = blocks.len();
                        assert(next < count);
                        let out = Self::blocks(use_crc, blocks, next + 1);
                        proof {
                            assert forall|replies: Seq<ReplySpec>|
                                #[trigger] self.on(reply@, replies) == write_blocks_run(
                                    use_crc,
                                    blocks_view(blocks@),
                                    (next + 1) as nat,
                                    replies,
                                ) by {}
                        }
                        out
                    },
                }
            },
            WritePhase::End(end) => match end.step(reply) {
                Next::Need(end, action) => Next::Need(
                    WriteInner { use_crc, blocks, phase: WritePhase::End(end) },
                    action,
                ),
                Next::Done(value) => Next::Done(value),
            },
        }
    }
}

} // verus!
