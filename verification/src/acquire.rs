//! Acquisition: bringing a card from any state into SPI mode and finding
//! out what kind of card it is.

use crate::bus::{group_run, Action, ActionSpec, Next, Reply, ReplySpec, Run};
use crate::command::{acmd_run, command_run, Acmd, Command};
use crate::delay::{Delay, DEFAULT_COMMAND_RETRIES, TICK_US};
use crate::proto::{
    ACMD41, CMD0, CMD58, CMD59, CMD8, R1_IDLE_STATE, R1_READY_STATE,
};
use crate::types::{AcquireOpts, CardType, Error};
use vstd::prelude::*;

verus! {

broadcast use group_run;

/// The response to the interface probe of a card that predates it: the
/// illegal-command bit and the idle bit.
pub const R1_ILLEGAL_IDLE: u8 = 0x05;

/// The argument of the interface probe: 2.7 to 3.6 volts, and a pattern
/// to echo.
pub const PROBE_ARG: u32 = 0x1AA;

/// The pattern that the card echoes in the last byte of its answer.
pub const PROBE_ECHO: u8 = 0xAA;

/// How many idle bytes are clocked out after a reset that timed out.
pub const FLUSH_LEN: u32 = 255;

/// How many idle bytes are clocked out, with the card deselected, before
/// anything else: more than the 74 clock cycles that a card needs.
pub const WAKE_LEN: usize = 10;

/// The argument of the initialisation command for a card of this kind: the
/// high-capacity bit for a card that answered the interface probe.
pub open spec fn op_cond_arg(card: CardType) -> u32 {
    match card {
        CardType::SD1 => 0,
        _ => 0x4000_0000,
    }
}

/// The kind of card that an operating-conditions register stands for, given
/// that the card answered the interface probe: high capacity if the two
/// most significant bits of the first byte are set.
pub open spec fn classify(ocr0: u8) -> CardType {
    if ocr0 & 0xC0 == 0xC0 {
        CardType::SDHC
    } else {
        CardType::SD2
    }
}

/// Clocking out `count` idle bytes, one transfer each.
pub open spec fn flush_run(count: nat, replies: Seq<ReplySpec>) -> Run<Result<(), Error>>
    decreases count, 1nat,
{
    if count == 0 {
        Run::done(Ok(()), replies)
    } else {
        Run::ask(
            ActionSpec::Transfer(0xFF),
            replies,
            flush_byte(count, replies.first(), replies.drop_first()),
        )
    }
}

/// The flush of `count` bytes once the transfer of its first has been
/// answered with `reply`.
pub open spec fn flush_byte(count: nat, reply: ReplySpec, replies: Seq<ReplySpec>) -> Run<
    Result<(), Error>,
>
    decreases count, 0nat,
{
    match reply {
        ReplySpec::Byte(_) => if count == 0 {
            Run::done(Ok(()), replies)
        } else {
            flush_run((count - 1) as nat, replies)
        },
        _ => Run::done(Err(Error::Transport), replies),
    }
}

/// Acquisition without the release of the bus at its end: deselect the
/// card and clock out idle bytes; select it; reset it until it reports the
/// idle state; switch it to CRC mode if checksums are in use; probe its
/// interface; initialise it; and, if it answered the probe, ask for its
/// capacity class.
pub open spec fn acquire_inner_run(opts: AcquireOpts, replies: Seq<ReplySpec>) -> Run<
    Result<CardType, Error>,
> {
    Run::ask(
        ActionSpec::CsHigh,
        replies,
        acquire_deselected(opts, replies.first(), replies.drop_first()),
    )
}

/// Acquisition once the deselection has been answered with `reply`.
pub open spec fn acquire_deselected(
    opts: AcquireOpts,
    reply: ReplySpec,
    replies: Seq<ReplySpec>,
) -> Run<Result<CardType, Error>> {
    match reply {
        ReplySpec::Done => Run::ask(
            ActionSpec::Write(Seq::new(WAKE_LEN as nat, |i: int| 0xFFu8)),
            replies,
            acquire_woken(opts, replies.first(), replies.drop_first()),
        ),
        _ => Run::done(Err(Error::GpioError), replies),
    }
}

/// Acquisition once the write of the idle bytes has been answered with
/// `reply`.
pub open spec fn acquire_woken(opts: AcquireOpts, reply: ReplySpec, replies: Seq<ReplySpec>) -> Run<
    Result<CardType, Error>,
> {
    match reply {
        ReplySpec::Done => Run::ask(
            ActionSpec::CsLow,
            replies,
            acquire_selected(opts, replies.first(), replies.drop_first()),
        ),
        _ => Run::done(Err(Error::Transport), replies),
    }
}

/// Acquisition once the selection has been answered with `reply`.
pub open spec fn acquire_selected(
    opts: AcquireOpts,
    reply: ReplySpec,
    replies: Seq<ReplySpec>,
) -> Run<Result<CardType, Error>> {
    match reply {
        ReplySpec::Done => reset_run(opts.use_crc, opts.acquire_retries as nat, replies),
        _ => Run::done(Err(Error::GpioError), replies),
    }
}

/// The reset loop with `left` attempts to go. Without an attempt to go, no
/// card was found. Otherwise send the reset command. If the card reports
/// the idle state, go on. If no response arrives, flush the bus and try
/// again; on any other response, try again. Trying again costs one pause
/// and leaves one attempt less to go.
pub open spec fn reset_run(use_crc: bool, left: nat, replies: Seq<ReplySpec>) -> Run<
    Result<CardType, Error>,
>
    decreases left, 4nat,
{
    if left == 0 {
        Run::done(Err(Error::CardNotFound), replies)
    } else {
        reset_sent(use_crc, left, command_run(CMD0, 0, replies))
    }
}

/// The reset command, and acquisition after it.
pub open spec fn reset_sent(use_crc: bool, left: nat, reset: Run<Result<u8, Error>>) -> Run<
    Result<CardType, Error>,
>
    decreases left, 3nat,
{
    reset.followed_by(reset_answered(use_crc, left, reset.value(), reset.tail()))
}

/// Acquisition once the reset command has ended with `r1`.
pub open spec fn reset_answered(
    use_crc: bool,
    left: nat,
    r1: Result<u8, Error>,
    replies: Seq<ReplySpec>,
) -> Run<Result<CardType, Error>>
    decreases left, 2nat,
{
    match r1 {
        Err(e) => if e == Error::TimeoutCommand(CMD0) {
            reset_flushed(use_crc, left, flush_run(FLUSH_LEN as nat, replies))
        } else {
            Run::done(Err(e), replies)
        },
        Ok(r1) => if r1 == R1_IDLE_STATE {
            crc_mode_run(use_crc, replies)
        } else {
            reset_retry(use_crc, left, replies)
        },
    }
}

/// The flush after a reset that timed out, and acquisition after it.
pub open spec fn reset_flushed(use_crc: bool, left: nat, flush: Run<Result<(), Error>>) -> Run<
    Result<CardType, Error>,
>
    decreases left, 1nat,
{
    flush.followed_by(
        match flush.value() {
            Ok(()) => reset_retry(use_crc, left, flush.tail()),
            Err(e) => Run::done(Err(e), flush.tail()),
        },
    )
}

/// The pause after an attempt that failed, the last of `left`, and the
/// reset loop with one attempt less to go.
pub open spec fn reset_retry(use_crc: bool, left: nat, replies: Seq<ReplySpec>) -> Run<
    Result<CardType, Error>,
>
    decreases left, 0nat,
{
    if left == 0 {
        Run::done(Err(Error::CardNotFound), replies)
    } else {
        Run::ask(
            ActionSpec::DelayUs(TICK_US),
            replies,
            reset_run(use_crc, (left - 1) as nat, replies.drop_first()),
        )
    }
}

/// Switching the card to CRC mode, if checksums are in use, and acquisition
/// after it.
pub open spec fn crc_mode_run(use_crc: bool, replies: Seq<ReplySpec>) -> Run<
    Result<CardType, Error>,
> {
    if use_crc {
        crc_mode_sent(command_run(CMD59, 1, replies))
    } else {
        probe_run(DEFAULT_COMMAND_RETRIES as nat, replies)
    }
}

/// The CRC-mode command, and acquisition after it.
pub open spec fn crc_mode_sent(sent: Run<Result<u8, Error>>) -> Run<Result<CardType, Error>> {
    sent.followed_by(
        match sent.value() {
            Err(e) => Run::done(Err(e), sent.tail()),
            Ok(r1) => if r1 != R1_IDLE_STATE {
                Run::done(Err(Error::CantEnableCRC), sent.tail())
            } else {
                probe_run(DEFAULT_COMMAND_RETRIES as nat, sent.tail())
            },
        },
    )
}

/// The probe loop with `left` retries: send the interface probe. A card
/// that calls it illegal is of version 1. Otherwise four more bytes follow;
/// if the last echoes the pattern, the card is of version 2; if not, the
/// probe is retried after a pause.
pub open spec fn probe_run(left: nat, replies: Seq<ReplySpec>) -> Run<Result<CardType, Error>>
    decreases left, 2nat,
{
    probe_sent(left, command_run(CMD8, PROBE_ARG, replies))
}

/// The interface probe, and acquisition after it.
pub open spec fn probe_sent(left: nat, probe: Run<Result<u8, Error>>) -> Run<
    Result<CardType, Error>,
>
    decreases left, 1nat,
{
    probe.followed_by(
        match probe.value() {
            Err(e) => Run::done(Err(e), probe.tail()),
            Ok(r1) => if r1 == R1_ILLEGAL_IDLE {
                ready_run(CardType::SD1, DEFAULT_COMMAND_RETRIES as nat, probe.tail())
            } else {
                Run::ask(
                    ActionSpec::Read(4),
                    probe.tail(),
                    probe_echo(left, probe.tail().first(), probe.tail().drop_first()),
                )
            },
        },
    )
}

/// Acquisition once the read of the probe's trailing bytes has been
/// answered with `reply`.
pub open spec fn probe_echo(left: nat, reply: ReplySpec, replies: Seq<ReplySpec>) -> Run<
    Result<CardType, Error>,
>
    decreases left, 0nat,
{
    match reply {
        ReplySpec::Bytes(bytes) => if bytes.len() != 4 {
            Run::done(Err(Error::Transport), replies)
        } else if bytes[3] == PROBE_ECHO {
            ready_run(CardType::SD2, DEFAULT_COMMAND_RETRIES as nat, replies)
        } else if left == 0 {
            Run::done(Err(Error::TimeoutCommand(CMD8)), replies)
        } else {
            Run::ask(
                ActionSpec::DelayUs(TICK_US),
                replies,
                probe_run((left - 1) as nat, replies.drop_first()),
            )
        },
        _ => Run::done(Err(Error::Transport), replies),
    }
}

/// The initialisation loop with `left` retries, for a card that is `card`
/// as far as the probe could tell: send the initialisation command until
/// the card reports that it is ready, with a pause before every retry.
pub open spec fn ready_run(card: CardType, left: nat, replies: Seq<ReplySpec>) -> Run<
    Result<CardType, Error>,
>
    decreases left, 1nat,
{
    ready_sent(card, left, acmd_run(ACMD41, op_cond_arg(card), replies))
}

/// The initialisation command, and acquisition after it.
pub open spec fn ready_sent(card: CardType, left: nat, init: Run<Result<u8, Error>>) -> Run<
    Result<CardType, Error>,
>
    decreases left, 0nat,
{
    init.followed_by(
        match init.value() {
            Err(e) => Run::done(Err(e), init.tail()),
            Ok(r1) => if r1 == R1_READY_STATE {
                classify_run(card, init.tail())
            } else if left == 0 {
                Run::done(Err(Error::TimeoutACommand(ACMD41)), init.tail())
            } else {
                Run::ask(
                    ActionSpec::DelayUs(TICK_US),
                    init.tail(),
                    ready_run(card, (left - 1) as nat, init.tail().drop_first()),
                )
            },
        },
    )
}

/// Telling a high-capacity card from a standard-capacity one: only a card
/// that answered the probe is asked for its operating-conditions register.
pub open spec fn classify_run(card: CardType, replies: Seq<ReplySpec>) -> Run<
    Result<CardType, Error>,
> {
    if card == CardType::SD2 {
        classify_sent(command_run(CMD58, 0, replies))
    } else {
        Run::done(Ok(card), replies)
    }
}

/// The register command, and acquisition after it.
pub open spec fn classify_sent(sent: Run<Result<u8, Error>>) -> Run<Result<CardType, Error>> {
    sent.followed_by(
        match sent.value() {
            Err(e) => Run::done(Err(e), sent.tail()),
            Ok(r1) => if r1 != 0 {
                Run::done(Err(Error::Cmd58Error), sent.tail())
            } else {
                Run::ask(
                    ActionSpec::Read(4),
                    sent.tail(),
                    classify_ocr(sent.tail().first(), sent.tail().drop_first()),
                )
            },
        },
    )
}

/// Acquisition once the read of the register has been answered with
/// `reply`.
pub open spec fn classify_ocr(reply: ReplySpec, replies: Seq<ReplySpec>) -> Run<
    Result<CardType, Error>,
> {
    match reply {
        ReplySpec::Bytes(ocr) => if ocr.len() == 4 {
            Run::done(Ok(classify(ocr[0])), replies)
        } else {
            Run::done(Err(Error::Transport), replies)
        },
        _ => Run::done(Err(Error::Transport), replies),
    }
}

/// Acquisition: everything in [`acquire_inner_run`], and whatever came of
/// it, the card is deselected and one more byte is clocked to make it
/// release the bus. What the bus answers to that byte does not matter.
#[verifier::opaque]
pub open spec fn acquire_run(opts: AcquireOpts, replies: Seq<ReplySpec>) -> Run<
    Result<CardType, Error>,
> {
    acquire_attempted(acquire_inner_run(opts, replies))
}

/// The attempt, and the release of the bus after it.
pub open spec fn acquire_attempted(attempt: Run<Result<CardType, Error>>) -> Run<
    Result<CardType, Error>,
> {
    attempt.followed_by(acquire_release(attempt.value(), attempt.tail()))
}

/// The release of the bus after an attempt that ended with `result`.
pub open spec fn acquire_release(result: Result<CardType, Error>, replies: Seq<ReplySpec>) -> Run<
    Result<CardType, Error>,
> {
    Run::ask(
        ActionSpec::CsHigh,
        replies,
        acquire_released(result, replies.first(), replies.drop_first()),
    )
}

/// Acquisition once the final deselection has been answered with `reply`.
pub open spec fn acquire_released(
    result: Result<CardType, Error>,
    reply: ReplySpec,
    replies: Seq<ReplySpec>,
) -> Run<Result<CardType, Error>> {
    match reply {
        ReplySpec::Done => Run::ask(
            ActionSpec::Transfer(0xFF),
            replies,
            Run::done(result, replies.drop_first()),
        ),
        _ => Run::done(Err(Error::GpioError), replies),
    }
}

#[derive(Debug)]
enum InnerPhase {
    Deselect,
    Wake,
    Select,
    Reset(Command, Delay),
    Flush(u32, Delay),
    ResetPause(Delay),
    CrcMode(Command),
    Probe(Command, Delay),
    Echo(Delay),
    ProbePause(Delay),
    Ready(Acmd, CardType, Delay),
    ReadyPause(CardType, Delay),
    Classify(Command),
    Ocr,
}

/// An acquisition in progress, up to the release of the bus.
#[derive(Debug)]
pub struct AcquireInner {
    opts: AcquireOpts,
    phase: InnerPhase,
}

impl AcquireInner {
    /// What the acquisition does once the pending action is answered with
    /// `reply` and `replies` follow.
    pub closed spec fn on(self, reply: ReplySpec, replies: Seq<ReplySpec>) -> Run<
        Result<CardType, Error>,
    > {
        match self.phase {
            InnerPhase::Deselect => acquire_deselected(self.opts, reply, replies),
            InnerPhase::Wake => acquire_woken(self.opts, reply, replies),
            InnerPhase::Select => acquire_selected(self.opts, reply, replies),
            InnerPhase::Reset(reset, delay) => reset_sent(
                self.opts.use_crc,
                delay.remaining(),
                reset.on(reply, replies),
            ),
            InnerPhase::Flush(count, delay) => reset_flushed(
                self.opts.use_crc,
                delay.remaining(),
                flush_byte(count as nat, reply, replies),
            ),
            InnerPhase::ResetPause(delay) => reset_run(
                self.opts.use_crc,
                delay.remaining(),
                replies,
            ),
            InnerPhase::CrcMode(sent) => crc_mode_sent(sent.on(reply, replies)),
            InnerPhase::Probe(probe, delay) => probe_sent(
                delay.remaining(),
                probe.on(reply, replies),
            ),
            InnerPhase::Echo(delay) => probe_echo(delay.remaining(), reply, replies),
            InnerPhase::ProbePause(delay) => probe_run(delay.remaining(), replies),
            InnerPhase::Ready(init, card, delay) => ready_sent(
                card,
                delay.remaining(),
                init.on(reply, replies),
            ),
            InnerPhase::ReadyPause(card, delay) => ready_run(card, delay.remaining(), replies),
            InnerPhase::Classify(sent) => classify_sent(sent.on(reply, replies)),
            InnerPhase::Ocr => classify_ocr(reply, replies),
        }
    }

    /// Starts an acquisition.
    pub fn start(opts: AcquireOpts) -> (out: (AcquireInner, Action))
        ensures
            forall|replies: Seq<ReplySpec>|
                #[trigger] acquire_inner_run(opts, replies) == Run::ask(
                    out.1@,
                    replies,
                    out.0.on(replies.first(), replies.drop_first()),
                ),
    {
        (AcquireInner { opts, phase: InnerPhase::Deselect }, Action::CsHigh)
    }

    fn reset(opts: AcquireOpts, delay: Delay) -> (out: Next<AcquireInner, Result<CardType, Error>>)
        ensures
            match out {
                Next::Need(next, action) => forall|replies: Seq<ReplySpec>|
                    #[trigger] reset_run(opts.use_crc, delay.remaining(), replies) == Run::ask(
                        action@,
                        replies,
                        next.on(replies.first(), replies.drop_first()),
                    ),
                Next::Done(value) => forall|replies: Seq<ReplySpec>|
                    #[trigger] reset_run(opts.use_crc, delay.remaining(), replies) == Run::done(
                        value,
                        replies,
                    ),
            },
    {
        if delay.retries_left() == 0 {
            Next::Done(Err(Error::CardNotFound))
        } else {
            let (reset, action) = Command::start(CMD0, 0);
            Next::Need(AcquireInner { opts, phase: InnerPhase::Reset(reset, delay) }, action)
        }
    }

    fn crc_mode(opts: AcquireOpts) -> (out: Next<AcquireInner, Result<CardType, Error>>)
        ensures
            out matches Next::Need(next, action) && forall|replies: Seq<ReplySpec>|
                #[trigger] crc_mode_run(opts.use_crc, replies) == Run::ask(
                    action@,
                    replies,
                    next.on(replies.first(), replies.drop_first()),
                ),
    {
        if opts.use_crc {
            let (sent, action) = Command::start(CMD59, 1);
            Next::Need(AcquireInner { opts, phase: InnerPhase::CrcMode(sent) }, action)
        } else {
            Self::probe(opts, Delay::new_command())
        }
    }

    fn probe(opts: AcquireOpts, delay: Delay) -> (out: Next<AcquireInner, Result<CardType, Error>>)
        ensures
            out matches Next::Need(next, action) && forall|replies: Seq<ReplySpec>|
                #[trigger] probe_run(delay.remaining(), replies) == Run::ask(
                    action@,
                    replies,
                    next.on(replies.first(), replies.drop_first()),
                ),
    {
        let (probe, action) = Command::start(CMD8, PROBE_ARG);
        Next::Need(AcquireInner { opts, phase: InnerPhase::Probe(probe, delay) }, action)
    }

    fn ready(opts: AcquireOpts, card: CardType, delay: Delay) -> (out: Next<
        AcquireInner,
        Result<CardType, Error>,
    >)
        ensures
            out matches Next::Need(next, action) && forall|replies: Seq<ReplySpec>|
                #[trigger] ready_run(card, delay.remaining(), replies) == Run::ask(
                    action@,
                    replies,
                    next.on(replies.first(), replies.drop_first()),
                ),
    {
        let arg: u32 = match card {
            CardType::SD1 => 0,
            _ => 0x4000_0000,
        };
        let (init, action) = Acmd::start(ACMD41, arg);
        Next::Need(AcquireInner { opts, phase: InnerPhase::Ready(init, card, delay) }, action)
    }

    fn classify(opts: AcquireOpts, card: CardType) -> (out: Next<
        AcquireInner,
        Result<CardType, Error>,
    >)
        ensures
            match out {
                Next::Need(next, action) => forall|replies: Seq<ReplySpec>|
                    #[trigger] classify_run(card, replies) == Run::ask(
                        action@,
                        replies,
                        next.on(replies.first(), replies.drop_first()),
                    ),
                Next::Done(value) => forall|replies: Seq<ReplySpec>|
                    #[trigger] classify_run(card, replies) == Run::done(value, replies),
            },
    {
        match card {
            CardType::SD2 => {
                let (sent, action) = Command::start(CMD58, 0);
                Next::Need(AcquireInner { opts, phase: InnerPhase::Classify(sent) }, action)
            },
            _ => Next::Done(Ok(card)),
        }
    }

    fn on_deselected(
        opts: AcquireOpts,
        reply: Reply,
    ) -> (out: Next<AcquireInner, Result<CardType, Error>>)
        ensures
            match out {
                Next::Need(next, action) => forall|replies: Seq<ReplySpec>|
                    #[trigger] acquire_deselected(opts, reply@, replies) == Run::ask(
                        action@,
                        replies,
                        next.on(replies.first(), replies.drop_first()),
                    ),
                Next::Done(value) => forall|replies: Seq<ReplySpec>|
                    #[trigger] acquire_deselected(
                        opts,
                        reply@,
                        replies,
                    ) == Run::done(value, replies),
            },
    {
        match reply {
            Reply::Done => {
                let idle: Vec<u8> = vec![0xFFu8; WAKE_LEN];
                assert(idle@ =~= Seq::new(WAKE_LEN as nat, |i: int| 0xFFu8));
                Next::Need(AcquireInner { opts, phase: InnerPhase::Wake }, Action::Write(idle))
            },
            _ => Next::Done(Err(Error::GpioError)),
        }
    }

    fn on_reset(
        opts: AcquireOpts,
        reset: Command,
        delay: Delay,
        reply: Reply,
    ) -> (out: Next<AcquireInner, Result<CardType, Error>>)
        ensures
            match out {
                Next::Need(next, action) => forall|replies: Seq<ReplySpec>|
                    #[trigger] reset_sent(
                        opts.use_crc,
                        delay.remaining(),
                        reset.on(reply@, replies),
                    ) == Run::ask(
                        action@,
                        replies,
                        next.on(replies.first(), replies.drop_first()),
                    ),
                Next::Done(value) => forall|replies: Seq<ReplySpec>|
                    #[trigger] reset_sent(
                        opts.use_crc,
                        delay.remaining(),
                        reset.on(reply@, replies),
                    ) == Run::done(value, replies),
            },
    {
        reveal_with_fuel(reset_sent, 3);
        reveal_with_fuel(flush_run, 2);
        match reset.step(reply) {
            Next::Need(reset, action) => Next::Need(
                AcquireInner { opts, phase: InnerPhase::Reset(reset, delay) },
                action,
            ),
            Next::Done(Err(e)) => {
                if e == Error::TimeoutCommand(CMD0) {
                    Next::Need(
                        AcquireInner { opts, phase: InnerPhase::Flush(FLUSH_LEN, delay) },
                        Action::Transfer(0xFF),
                    )
                } else {
                    Next::Done(Err(e))
                }
            },
            Next::Done(Ok(r1)) => {
                if r1 == R1_IDLE_STATE {
                    Self::crc_mode(opts)
                } else {
                    let mut delay = delay;
                    match delay.delay(Error::CardNotFound) {
                        Err(e) => Next::Done(Err(e)),
                        Ok(()) => Next::Need(
                            AcquireInner { opts, phase: InnerPhase::ResetPause(delay) },
                            Action::DelayUs(TICK_US),
                        ),
                    }
                }
            },
        }
    }

    fn on_flush(
        opts: AcquireOpts,
        count: u32,
        delay: Delay,
        reply: Reply,
    ) -> (out: Next<AcquireInner, Result<CardType, Error>>)
        ensures
            match out {
                Next::Need(next, action) => forall|replies: Seq<ReplySpec>|
                    #[trigger] reset_flushed(
                        opts.use_crc,
                        delay.remaining(),
                        flush_byte(count as nat, reply@, replies),
                    ) == Run::ask(
                        action@,
                        replies,
                        next.on(replies.first(), replies.drop_first()),
                    ),
                Next::Done(value) => forall|replies: Seq<ReplySpec>|
                    #[trigger] reset_flushed(
                        opts.use_crc,
                        delay.remaining(),
                        flush_byte(count as nat, reply@, replies),
                    ) == Run::done(value, replies),
            },
    {
        reveal_with_fuel(reset_flushed, 2);
        reveal_with_fuel(flush_byte, 3);
        match reply {
            Reply::Byte(_) => {
                if count <= 1 {
                    let mut delay = delay;
                    match delay.delay(Error::CardNotFound) {
                        Err(e) => Next::Done(Err(e)),
                        Ok(()) => Next::Need(
                            AcquireInner { opts, phase: InnerPhase::ResetPause(delay) },
                            Action::DelayUs(TICK_US),
                        ),
                    }
                } else {
                    Next::Need(
                        AcquireInner { opts, phase: InnerPhase::Flush(count - 1, delay) },
                        Action::Transfer(0xFF),
                    )
                }
            },
            _ => Next::Done(Err(Error::Transport)),
        }
    }

    fn on_crc_mode(
        opts: AcquireOpts,
        sent: Command,
        reply: Reply,
    ) -> (out: Next<AcquireInner, Result<CardType, Error>>)
        ensures
            match out {
                Next::Need(next, action) => forall|replies: Seq<ReplySpec>|
                    #[trigger] crc_mode_sent(sent.on(reply@, replies)) == Run::ask(
                        action@,
                        replies,
                        next.on(replies.first(), replies.drop_first()),
                    ),
                Next::Done(value) => forall|replies: Seq<ReplySpec>|
                    #[trigger] crc_mode_sent(sent.on(reply@, replies)) == Run::done(value, replies),
            },
    {
        match sent.step(reply) {
            Next::Need(sent, action) => Next::Need(
                AcquireInner { opts, phase: InnerPhase::CrcMode(sent) },
                action,
            ),
            Next::Done(Err(e)) => Next::Done(Err(e)),
            Next::Done(Ok(r1)) => {
                if r1 != R1_IDLE_STATE {
                    Next::Done(Err(Error::CantEnableCRC))
                } else {
                    Self::probe(opts, Delay::new_command())
                }
            },
        }
    }

    fn on_probe(
        opts: AcquireOpts,
        probe: Command,
        delay: Delay,
        reply: Reply,
    ) -> (out: Next<AcquireInner, Result<CardType, Error>>)
        ensures
            match out {
                Next::Need(next, action) => forall|replies: Seq<ReplySpec>|
                    #[trigger] probe_sent(delay.remaining(), probe.on(reply@, replies)) == Run::ask(
                        action@,
                        replies,
                        next.on(replies.first(), replies.drop_first()),
                    ),
                Next::Done(value) => forall|replies: Seq<ReplySpec>|
                    #[trigger] probe_sent(
                        delay.remaining(),
                        probe.on(reply@, replies),
                    ) == Run::done(value, replies),
            },
    {
        match probe.step(reply) {
            Next::Need(probe, action) => Next::Need(
                AcquireInner { opts, phase: InnerPhase::Probe(probe, delay) },
                action,
            ),
            Next::Done(Err(e)) => Next::Done(Err(e)),
            Next::Done(Ok(r1)) => {
                if r1 == R1_ILLEGAL_IDLE {
                    Self::ready(opts, CardType::SD1, Delay::new_command())
                } else {
                    Next::Need(
                        AcquireInner { opts, phase: InnerPhase::Echo(delay) },
                        Action::Read(4),
                    )
                }
            },
        }
    }

    fn on_echo(
        opts: AcquireOpts,
        delay: Delay,
        reply: Reply,
    ) -> (out: Next<AcquireInner, Result<CardType, Error>>)
        ensures
            match out {
                Next::Need(next, action) => forall|replies: Seq<ReplySpec>|
                    #[trigger] probe_echo(delay.remaining(), reply@, replies) == Run::ask(
                        action@,
                        replies,
                        next.on(replies.first(), replies.drop_first()),
                    ),
                Next::Done(value) => forall|replies: Seq<ReplySpec>|
                    #[trigger] probe_echo(
                        delay.remaining(),
                        reply@,
                        replies,
                    ) == Run::done(value, replies),
            },
    {
        match reply {
            Reply::Bytes(bytes) => {
                if bytes.len() != 4 {
                    Next::Done(Err(Error::Transport))
                } else if bytes[3] == PROBE_ECHO {
                    Self::ready(opts, CardType::SD2, Delay::new_command())
                } else {
                    let mut delay = delay;
                    match delay.delay(Error::TimeoutCommand(CMD8)) {
                        Err(e) => Next::Done(Err(e)),
                        Ok(()) => Next::Need(
                            AcquireInner { opts, phase: InnerPhase::ProbePause(delay) },
                            Action::DelayUs(TICK_US),
                        ),
                    }
                }
            },
            _ => Next::Done(Err(Error::Transport)),
        }
    }

    fn on_ready(
        opts: AcquireOpts,
        init: Acmd,
        card: CardType,
        delay: Delay,
        reply: Reply,
    ) -> (out: Next<AcquireInner, Result<CardType, Error>>)
        ensures
            match out {
                Next::Need(next, action) => forall|replies: Seq<ReplySpec>|
                    #[trigger] ready_sent(
                        card,
                        delay.remaining(),
                        init.on(reply@, replies),
                    ) == Run::ask(
                        action@,
                        replies,
                        next.on(replies.first(), replies.drop_first()),
                    ),
                Next::Done(value) => forall|replies: Seq<ReplySpec>|
                    #[trigger] ready_sent(
                        card,
                        delay.remaining(),
                        init.on(reply@, replies),
                    ) == Run::done(value, replies),
            },
    {
        match init.step(reply) {
            Next::Need(init, action) => Next::Need(
                AcquireInner { opts, phase: InnerPhase::Ready(init, card, delay) },
                action,
            ),
            Next::Done(Err(e)) => Next::Done(Err(e)),
            Next::Done(Ok(r1)) => {
                if r1 == R1_READY_STATE {
                    Self::classify(opts, card)
                } else {
                    let mut delay = delay;
                    match delay.delay(Error::TimeoutACommand(ACMD41)) {
                        Err(e) => Next::Done(Err(e)),
                        Ok(()) => Next::Need(
                            AcquireInner { opts, phase: InnerPhase::ReadyPause(card, delay) },
                            Action::DelayUs(TICK_US),
                        ),
                    }
                }
            },
        }
    }

    fn on_classify(
        opts: AcquireOpts,
        sent: Command,
        reply: Reply,
    ) -> (out: Next<AcquireInner, Result<CardType, Error>>)
        ensures
            match out {
                Next::Need(next, action) => forall|replies: Seq<ReplySpec>|
                    #[trigger] classify_sent(sent.on(reply@, replies)) == Run::ask(
                        action@,
                        replies,
                        next.on(replies.first(), replies.drop_first()),
                    ),
                Next::Done(value) => forall|replies: Seq<ReplySpec>|
                    #[trigger] classify_sent(sent.on(reply@, replies)) == Run::done(value, replies),
            },
    {
        match sent.step(reply) {
            Next::Need(sent, action) => Next::Need(
                AcquireInner { opts, phase: InnerPhase::Classify(sent) },
                action,
            ),
            Next::Done(Err(e)) => Next::Done(Err(e)),
            Next::Done(Ok(r1)) => {
                if r1 != 0 {
                    Next::Done(Err(Error::Cmd58Error))
                } else {
                    Next::Need(AcquireInner { opts, phase: InnerPhase::Ocr }, Action::Read(4))
                }
            },
        }
    }

    fn on_ocr(reply: Reply) -> (out: Next<AcquireInner, Result<CardType, Error>>)
        ensures
            match out {
                Next::Need(next, action) => forall|replies: Seq<ReplySpec>|
                    #[trigger] classify_ocr(reply@, replies) == Run::ask(
                        action@,
                        replies,
                        next.on(replies.first(), replies.drop_first()),
                    ),
                Next::Done(value) => forall|replies: Seq<ReplySpec>|
                    #[trigger] classify_ocr(reply@, replies) == Run::done(value, replies),
            },
    {
        match reply {
            Reply::Bytes(ocr) => {
                if ocr.len() == 4 {
                    if (ocr[0] & 0xC0) == 0xC0 {
                        Next::Done(Ok(CardType::SDHC))
                    } else {
                        Next::Done(Ok(CardType::SD2))
                    }
                } else {
                    Next::Done(Err(Error::Transport))
                }
            },
            _ => Next::Done(Err(Error::Transport)),
        }
    }

    /// Resumes the acquisition with the reply to its pending action.
    pub fn step(self, reply: Reply) -> (out: Next<AcquireInner, Result<CardType, Error>>)
        ensures
            match out {
                Next::Need(next, action) => forall|replies: Seq<ReplySpec>|
                    #[trigger] self.on(reply@, replies) == Run::ask(
                        action@,
                        replies,
                        next.on(replies.first(), replies.drop_first()),
                    ),
                Next::Done(value) => forall|replies: Seq<ReplySpec>|
                    #[trigger] self.on(reply@, replies) == Run::done(value, replies),
            },
    {
        let opts = self.opts;
        match self.phase {
            InnerPhase::Deselect => Self::on_deselected(opts, reply),
            InnerPhase::Wake => match reply {
                Reply::Done => Next::Need(
                    AcquireInner { opts, phase: InnerPhase::Select },
                    Action::CsLow,
                ),
                _ => Next::Done(Err(Error::Transport)),
            },
            InnerPhase::Select => match reply {
                Reply::Done => Self::reset(opts, Delay::new(opts.acquire_retries)),
                _ => Next::Done(Err(Error::GpioError)),
            },
            InnerPhase::Reset(reset, delay) => Self::on_reset(opts, reset, delay, reply),
            InnerPhase::Flush(count, delay) => Self::on_flush(opts, count, delay, reply),
            InnerPhase::ResetPause(delay) => Self::reset(opts, delay),
            InnerPhase::CrcMode(sent) => Self::on_crc_mode(opts, sent, reply),
            InnerPhase::Probe(probe, delay) => Self::on_probe(opts, probe, delay, reply),
            InnerPhase::Echo(delay) => Self::on_echo(opts, delay, reply),
            InnerPhase::ProbePause(delay) => Self::probe(opts, delay),
            InnerPhase::Ready(init, card, delay) => Self::on_ready(opts, init, card, delay, reply),
            InnerPhase::ReadyPause(card, delay) => Self::ready(opts, card, delay),
            InnerPhase::Classify(sent) => Self::on_classify(opts, sent, reply),
            InnerPhase::Ocr => Self::on_ocr(reply),
        }
    }
}

#[derive(Debug)]
enum AcquirePhase {
    Attempt(AcquireInner),
    Release(Result<CardType, Error>),
    Idle(Result<CardType, Error>),
}

/// An acquisition in progress.
#[derive(Debug)]
pub struct Acquire {
    phase: AcquirePhase,
}

impl Acquire {
    /// What the acquisition does once the pending action is answered with
    /// `reply` and `replies` follow.
    pub closed spec fn on(self, reply: ReplySpec, replies: Seq<ReplySpec>) -> Run<
        Result<CardType, Error>,
    > {
        match self.phase {
            AcquirePhase::Attempt(attempt) => acquire_attempted(attempt.on(reply, replies)),
            AcquirePhase::Release(result) => acquire_released(result, reply, replies),
            AcquirePhase::Idle(result) => Run::done(result, replies),
        }
    }

    /// Starts an acquisition.
    pub fn start(opts: AcquireOpts) -> (out: (Acquire, Action))
        ensures
            forall|replies: Seq<ReplySpec>|
                #[trigger] acquire_run(opts, replies) == Run::ask(
                    out.1@,
                    replies,
                    out.0.on(replies.first(), replies.drop_first()),
                ),
    {
        reveal(acquire_run);
        let (attempt, action) = AcquireInner::start(opts);
        (Acquire { phase: AcquirePhase::Attempt(attempt) }, action)
    }

    /// Resumes the acquisition with the reply to its pending action.
    pub fn step(self, reply: Reply) -> (out: Next<Acquire, Result<CardType, Error>>)
        ensures
            match out {
                Next::Need(next, action) => forall|replies: Seq<ReplySpec>|
                    #[trigger] self.on(reply@, replies) == Run::ask(
                        action@,
                        replies,
                        next.on(replies.first(), replies.drop_first()),
                    ),
                Next::Done(value) => forall|replies: Seq<ReplySpec>|
                    #[trigger] self.on(reply@, replies) == Run::done(value, replies),
            },
    {
        match self.phase {
            AcquirePhase::Attempt(attempt) => match attempt.step(reply) {
                Next::Need(attempt, action) => Next::Need(
                    Acquire { phase: AcquirePhase::Attempt(attempt) },
                    action,
                ),
                Next::Done(result) => Next::Need(
                    Acquire { phase: AcquirePhase::Release(result) },
                    Action::CsHigh,
                ),
            },
            AcquirePhase::Release(result) => match reply {
                Reply::Done => Next::Need(
                    Acquire { phase: AcquirePhase::Idle(result) },
                    Action::Transfer(0xFF),
                ),
                _ => Next::Done(Err(Error::GpioError)),
            },
            AcquirePhase::Idle(result) => Next::Done(result),
        }
    }
}

} // verus!
