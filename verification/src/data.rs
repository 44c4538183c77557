//! Data packets: a token, a payload and a CRC-16.

use crate::bus::{group_run, Action, ActionSpec, Next, Reply, ReplySpec, Run};
use crate::delay::Delay;
use crate::delay::DEFAULT_READ_RETRIES;
use crate::poll::{poll_run, Poll, Until};
use crate::proto::{crc16, crc16_of, DATA_RES_ACCEPTED, DATA_RES_MASK, DATA_START_BLOCK};
use crate::types::Error;
use vstd::prelude::*;

verus! {

broadcast use group_run;

/// The 16-bit value that two bytes carry, the first being the more
/// significant.
pub open spec fn be16(hi: u8, lo: u8) -> u16 {
    (hi as u16 * 256 + lo as u16) as u16
}

/// The verdict on a payload that arrived with the checksum bytes `hi` and
/// `lo`. Without verification every payload passes. With it the payload
/// passes exactly if its CRC-16 is the value received; otherwise the error
/// carries the value received and the value computed, which differ.
pub open spec fn crc_verdict(use_crc: bool, payload: Seq<u8>, hi: u8, lo: u8) -> Result<(), Error> {
    if use_crc && be16(hi, lo) != crc16_of(payload) {
        Err(Error::CrcError(be16(hi, lo), crc16_of(payload)))
    } else {
        Ok(())
    }
}

/// Checks a payload against the checksum bytes that followed it.
pub fn check_crc(use_crc: bool, payload: &[u8], hi: u8, lo: u8) -> (res: Result<(), Error>)
    ensures
        res == crc_verdict(use_crc, payload@, hi, lo),
        res is Ok <==> (use_crc ==> crc16_of(payload@) == be16(hi, lo)),
        res matches Err(Error::CrcError(received, computed)) ==> received != computed,
{
    if use_crc {
        let received: u16 = (hi as u16) * 256 + (lo as u16);
        let computed: u16 = crc16(payload);
        if received != computed {
            return Err(Error::CrcError(received, computed));
        }
    }
    Ok(())
}

/// The two bytes that follow a payload on its way to the card: its CRC-16,
/// more significant byte first, or two `0xFF` bytes where checksums are not
/// in use.
pub open spec fn crc_trailer(use_crc: bool, payload: Seq<u8>) -> Seq<u8> {
    if use_crc {
        seq![(crc16_of(payload) / 256) as u8, (crc16_of(payload) % 256) as u8]
    } else {
        seq![0xFFu8, 0xFFu8]
    }
}

/// Computes the two bytes that follow a payload on its way to the card.
pub fn make_crc_trailer(use_crc: bool, payload: &[u8]) -> (bytes: Vec<u8>)
    ensures
        bytes@ == crc_trailer(use_crc, payload@),
{
    let mut bytes: Vec<u8> = Vec::new();
    if use_crc {
        let crc: u16 = crc16(payload);
        bytes.push((crc / 256) as u8);
        bytes.push((crc % 256) as u8);
    } else {
        bytes.push(0xFF);
        bytes.push(0xFF);
    }
    assert(bytes@ =~= crc_trailer(use_crc, payload@));
    bytes
}

/// The checksum that a card computes over a payload is the one that the
/// driver accepts: a payload followed by its own trailer always passes.
pub proof fn lemma_trailer_passes(use_crc: bool, payload: Seq<u8>)
    ensures
        crc_verdict(
            use_crc,
            payload,
            crc_trailer(true, payload)[0],
            crc_trailer(true, payload)[1],
        ) is Ok,
{
    let crc = crc16_of(payload);
    assert(((crc / 256) as u8) as u16 * 256 + ((crc % 256) as u8) as u16 == crc);
}

/// Reading a data packet of `len` payload bytes: poll for a token, which
/// must be the start token; read the payload; read the two checksum bytes
/// and, where checksums are in use, compare.
#[verifier::opaque]
pub open spec fn read_data_run(len: nat, use_crc: bool, replies: Seq<ReplySpec>) -> Run<
    Result<Seq<u8>, Error>,
> {
    read_data_awaited(
        len,
        use_crc,
        poll_run(Until::Token, DEFAULT_READ_RETRIES as nat, Error::TimeoutReadBuffer, replies),
    )
}

/// The poll for the token, and the packet after it.
pub open spec fn read_data_awaited(len: nat, use_crc: bool, token: Run<Result<u8, Error>>) -> Run<
    Result<Seq<u8>, Error>,
> {
    token.followed_by(read_data_token(len, use_crc, token.value(), token.tail()))
}

/// The packet once the poll for its token has ended with `polled`.
pub open spec fn read_data_token(
    len: nat,
    use_crc: bool,
    polled: Result<u8, Error>,
    replies: Seq<ReplySpec>,
) -> Run<Result<Seq<u8>, Error>> {
    match polled {
        Err(e) => Run::done(Err(e), replies),
        Ok(token) => if token != DATA_START_BLOCK {
            Run::done(Err(Error::ReadError), replies)
        } else {
            Run::ask(
                ActionSpec::Read(len),
                replies,
                read_data_payload(len, use_crc, replies.first(), replies.drop_first()),
            )
        },
    }
}

/// The packet once the read of its payload has been answered with `reply`.
pub open spec fn read_data_payload(
    len: nat,
    use_crc: bool,
    reply: ReplySpec,
    replies: Seq<ReplySpec>,
) -> Run<Result<Seq<u8>, Error>> {
    match reply {
        ReplySpec::Bytes(payload) => if payload.len() == len {
            Run::ask(
                ActionSpec::Read(2),
                replies,
                read_data_checksum(use_crc, payload, replies.first(), replies.drop_first()),
            )
        } else {
            Run::done(Err(Error::Transport), replies)
        },
        _ => Run::done(Err(Error::Transport), replies),
    }
}

/// The packet once the read of its checksum has been answered with `reply`.
pub open spec fn read_data_checksum(
    use_crc: bool,
    payload: Seq<u8>,
    reply: ReplySpec,
    replies: Seq<ReplySpec>,
) -> Run<Result<Seq<u8>, Error>> {
    match reply {
        ReplySpec::Bytes(crc) => if crc.len() == 2 {
            match crc_verdict(use_crc, payload, crc[0], crc[1]) {
                Ok(()) => Run::done(Ok(payload), replies),
                Err(e) => Run::done(Err(e), replies),
            }
        } else {
            Run::done(Err(Error::Transport), replies)
        },
        _ => Run::done(Err(Error::Transport), replies),
    }
}

/// A payload, or the error in its place, as a mathematical value.
pub open spec fn payload_view(res: Result<Vec<u8>, Error>) -> Result<Seq<u8>, Error> {
    match res {
        Ok(bytes) => Ok(bytes@),
        Err(e) => Err(e),
    }
}

#[derive(Debug)]
enum DataInPhase {
    Token(Poll),
    Payload,
    Checksum(Vec<u8>),
}

/// The reading of a data packet, in progress.
#[derive(Debug)]
pub struct DataIn {
    len: usize,
    use_crc: bool,
    phase: DataInPhase,
}

impl DataIn {
    /// The number of payload bytes that the packet is to carry.
    pub closed spec fn len(self) -> nat {
        self.len as nat
    }

    /// Whether a payload that is kept has the length asked for.
    pub closed spec fn wf(self) -> bool {
        match self.phase {
            DataInPhase::Checksum(payload) => payload@.len() == self.len,
            _ => true,
        }
    }

    /// What the reading does once the pending action is answered with
    /// `reply` and `replies` follow.
    pub closed spec fn on(self, reply: ReplySpec, replies: Seq<ReplySpec>) -> Run<
        Result<Seq<u8>, Error>,
    > {
        match self.phase {
            DataInPhase::Token(poll) => read_data_awaited(
                self.len as nat,
                self.use_crc,
                poll.on(reply, replies),
            ),
            DataInPhase::Payload => read_data_payload(
                self.len as nat,
                self.use_crc,
                reply,
                replies,
            ),
            DataInPhase::Checksum(payload) => read_data_checksum(
                self.use_crc,
                payload@,
                reply,
                replies,
            ),
        }
    }

    /// Starts reading a packet of `len` payload bytes.
    pub fn start(len: usize, use_crc: bool) -> (out: (DataIn, Action))
        ensures
            out.0.wf(),
            out.0.len() == len,
            forall|replies: Seq<ReplySpec>|
                #[trigger] read_data_run(len as nat, use_crc, replies) == Run::ask(
                    out.1@,
                    replies,
                    out.0.on(replies.first(), replies.drop_first()),
                ),
    {
        reveal(read_data_run);
        let (poll, action) = Poll::start(Until::Token, Delay::new_read(), Error::TimeoutReadBuffer);
        (DataIn { len, use_crc, phase: DataInPhase::Token(poll) }, action)
    }

    /// Resumes the reading with the reply to its pending action.
    pub fn step(self, reply: Reply) -> (out: Next<DataIn, Result<Vec<u8>, Error>>)
        requires
            self.wf(),
        ensures
            out matches Next::Need(next, _) ==> next.wf() && next.len() == self.len(),
            out matches Next::Done(Ok(payload)) ==> payload@.len() == self.len(),
            match out {
                Next::Need(next, action) => forall|replies: Seq<ReplySpec>|
                    #[trigger] self.on(reply@, replies) == Run::ask(
                        action@,
                        replies,
                        next.on(replies.first(), replies.drop_first()),
                    ),
                Next::Done(value) => forall|replies: Seq<ReplySpec>|
                    #[trigger] self.on(reply@, replies) == Run::done(payload_view(value), replies),
            },
    {
        let len = self.len;
        let use_crc = self.use_crc;
        match self.phase {
            DataInPhase::Token(poll) => match poll.step(reply) {
                Next::Need(poll, action) => Next::Need(
                    DataIn { len, use_crc, phase: DataInPhase::Token(poll) },
                    action,
                ),
                Next::Done(Err(e)) => Next::Done(Err(e)),
                Next::Done(Ok(token)) => {
                    if token != DATA_START_BLOCK {
                        Next::Done(Err(Error::ReadError))
                    } else {
                        Next::Need(
                            DataIn { len, use_crc, phase: DataInPhase::Payload },
                            Action::Read(len),
                        )
                    }
                },
            },
            DataInPhase::Payload => match reply {
                Reply::Bytes(payload) => {
                    if payload.len() == len {
                        Next::Need(
                            DataIn { len, use_crc, phase: DataInPhase::Checksum(payload) },
                            Action::Read(2),
                        )
                    } else {
                        Next::Done(Err(Error::Transport))
                    }
                },
                _ => Next::Done(Err(Error::Transport)),
            },
            DataInPhase::Checksum(payload) => match reply {
                Reply::Bytes(crc) => {
                    if crc.len() == 2 {
                        match check_crc(use_crc, payload.as_slice(), crc[0], crc[1]) {
                            Ok(()) => Next::Done(Ok(payload)),
                            Err(e) => Next::Done(Err(e)),
                        }
                    } else {
                        Next::Done(Err(Error::Transport))
                    }
                },
                _ => Next::Done(Err(Error::Transport)),
            },
        }
    }
}

/// Whether a data-response byte says that the block was accepted.
pub open spec fn accepted(status: u8) -> bool {
    status & DATA_RES_MASK == DATA_RES_ACCEPTED
}

/// Writing a data packet: the token, the payload, the two trailer bytes,
/// and one byte read back, which must say that the block was accepted.
#[verifier::opaque]
pub open spec fn write_data_run(
    token: u8,
    payload: Seq<u8>,
    use_crc: bool,
    replies: Seq<ReplySpec>,
) -> Run<Result<(), Error>> {
    Run::ask(
        ActionSpec::Transfer(token),
        replies,
        write_data_token(payload, use_crc, replies.first(), replies.drop_first()),
    )
}

/// The packet once the transfer of its token has been answered with `reply`.
pub open spec fn write_data_token(
    payload: Seq<u8>,
    use_crc: bool,
    reply: ReplySpec,
    replies: Seq<ReplySpec>,
) -> Run<Result<(), Error>> {
    match reply {
        ReplySpec::Byte(_) => Run::ask(
            ActionSpec::Write(payload),
            replies,
            write_data_payload(
                crc_trailer(use_crc, payload),
                replies.first(),
                replies.drop_first(),
            ),
        ),
        _ => Run::done(Err(Error::Transport), replies),
    }
}

/// The packet once the write of its payload has been answered with `reply`.
pub open spec fn write_data_payload(
    trailer: Seq<u8>,
    reply: ReplySpec,
    replies: Seq<ReplySpec>,
) -> Run<Result<(), Error>> {
    match reply {
        ReplySpec::Done => Run::ask(
            ActionSpec::Write(trailer),
            replies,
            write_data_trailer(replies.first(), replies.drop_first()),
        ),
        _ => Run::done(Err(Error::Transport), replies),
    }
}

/// The packet once the write of its trailer has been answered with `reply`.
pub open spec fn write_data_trailer(reply: ReplySpec, replies: Seq<ReplySpec>) -> Run<
    Result<(), Error>,
> {
    match reply {
        ReplySpec::Done => Run::ask(
            ActionSpec::Transfer(0xFF),
            replies,
            write_data_status(replies.first(), replies.drop_first()),
        ),
        _ => Run::done(Err(Error::Transport), replies),
    }
}

/// The packet once the transfer of the data response has been answered with
/// `reply`.
pub open spec fn write_data_status(reply: ReplySpec, replies: Seq<ReplySpec>) -> Run<
    Result<(), Error>,
> {
    match reply {
        ReplySpec::Byte(status) => if accepted(status) {
            Run::done(Ok(()), replies)
        } else {
            Run::done(Err(Error::WriteError), replies)
        },
        _ => Run::done(Err(Error::Transport), replies),
    }
}

#[derive(Debug)]
enum DataOutPhase {
    Token(Vec<u8>, Vec<u8>),
    Payload(Vec<u8>),
    Trailer,
    Status,
}

/// The writing of a data packet, in progress.
#[derive(Debug)]
pub struct DataOut {
    use_crc: bool,
    phase: DataOutPhase,
}

impl DataOut {
    /// Whether the bytes kept for later are the ones the packet calls for.
    pub closed spec fn wf(self) -> bool {
        match self.phase {
            DataOutPhase::Token(payload, trailer) => trailer@ == crc_trailer(
                self.use_crc,
                payload@,
            ),
            _ => true,
        }
    }

    /// What the writing does once the pending action is answered with
    /// `reply` and `replies` follow.
    pub closed spec fn on(self, reply: ReplySpec, replies: Seq<ReplySpec>) -> Run<
        Result<(), Error>,
    > {
        match self.phase {
            DataOutPhase::Token(payload, trailer) => write_data_token(
                payload@,
                self.use_crc,
                reply,
                replies,
            ),
            DataOutPhase::Payload(trailer) => write_data_payload(trailer@, reply, replies),
            DataOutPhase::Trailer => write_data_trailer(reply, replies),
            DataOutPhase::Status => write_data_status(reply, replies),
        }
    }

    /// Starts writing a packet that opens with `token` and carries
    /// `payload`.
    pub fn start(token: u8, payload: Vec<u8>, use_crc: bool) -> (out: (DataOut, Action))
        ensures
            out.0.wf(),
            forall|replies: Seq<ReplySpec>|
                #[trigger] write_data_run(token, payload@, use_crc, replies) == Run::ask(
                    out.1@,
                    replies,
                    out.0.on(replies.first(), replies.drop_first()),
                ),
    {
        reveal(write_data_run);
        let trailer = make_crc_trailer(use_crc, payload.as_slice());
        (DataOut { use_crc, phase: DataOutPhase::Token(payload, trailer) }, Action::Transfer(token))
    }

    /// Resumes the writing with the reply to its pending action.
    pub fn step(self, reply: Reply) -> (out: Next<DataOut, Result<(), Error>>)
        requires
            self.wf(),
        ensures
            match out {
                Next::Need(next, action) => next.wf() && forall|replies: Seq<ReplySpec>|
                    #[trigger] self.on(reply@, replies) == Run::ask(
                        action@,
                        replies,
                        next.on(replies.first(), replies.drop_first()),
                    ),
                Next::Done(value) => forall|replies: Seq<ReplySpec>|
                    #[trigger] self.on(reply@, replies) == Run::done(value, replies),
            },
    {
        let use_crc = self.use_crc;
        match self.phase {
            DataOutPhase::Token(payload, trailer) => match reply {
                Reply::Byte(_) => Next::Need(
                    DataOut { use_crc, phase: DataOutPhase::Payload(trailer) },
                    Action::Write(payload),
                ),
                _ => Next::Done(Err(Error::Transport)),
            },
            DataOutPhase::Payload(trailer) => match reply {
                Reply::Done => Next::Need(
                    DataOut { use_crc, phase: DataOutPhase::Trailer },
                    Action::Write(trailer),
                ),
                _ => Next::Done(Err(Error::Transport)),
            },
            DataOutPhase::Trailer => match reply {
                Reply::Done => Next::Need(
                    DataOut { use_crc, phase: DataOutPhase::Status },
                    Action::Transfer(0xFF),
                ),
                _ => Next::Done(Err(Error::Transport)),
            },
            DataOutPhase::Status => match reply {
                Reply::Byte(status) => {
                    if (status & DATA_RES_MASK) != DATA_RES_ACCEPTED {
                        Next::Done(Err(Error::WriteError))
                    } else {
                        Next::Done(Ok(()))
                    }
                },
                _ => Next::Done(Err(Error::Transport)),
            },
        }
    }
}

} // verus!
