//! Every conversation keeps pace with its replies and is over within a
//! bound: no operation waits for ever.
//!
//! For each run this module proves [`Run::paced`]: the run takes one reply
//! for each action, in order, and issues no more actions than its bound
//! says. A run that has that many replies to go on therefore comes to an
//! end.

use crate::acquire::{
    acquire_deselected, acquire_inner_run, acquire_release, acquire_released, acquire_run,
    acquire_selected, acquire_woken, classify_ocr, classify_run, crc_mode_run, flush_byte,
    flush_run, op_cond_arg, probe_echo, probe_run, probe_sent, ready_run, ready_sent,
    reset_answered, reset_flushed, reset_retry, reset_run, reset_sent, FLUSH_LEN, PROBE_ARG,
    WAKE_LEN,
};
use crate::inner::{acquire_op_run, end_read_run, end_write_run};
use crate::multiblock::{guarded, stopped};
use crate::outcome::{Outcome, OutputSpec};
use crate::sdcard::{knowing, lazy_run, request_run, unserved, RequestSpec, Settled};
use crate::transaction::{
    body_run, closing, release, released, transaction_run, transaction_selected, PlanSpec,
};
use crate::bus::{
    lemma_ask_paced, lemma_done_paced, lemma_followed_paced, lemma_paced_more, ActionSpec,
    ReplySpec, Run,
};
use crate::command::{
    acmd_main, acmd_run, command_ready, command_response, command_run, command_send,
    command_sent, command_stuffed,
};
use crate::data::{
    read_data_checksum, read_data_payload, read_data_run, read_data_token, write_data_payload,
    write_data_run, write_data_status, write_data_token, write_data_trailer,
};
use crate::delay::{DEFAULT_COMMAND_RETRIES, DEFAULT_READ_RETRIES, DEFAULT_WRITE_RETRIES, TICK_US};
use crate::register::{read_csd_run, read_csd_sent, CSD_LEN};
use crate::transfer::{
    prepare_inner_run, prepare_waited, read_block, read_blocks_run, read_inner_run, read_multi_sent,
    read_single_data, read_single_sent, read_stopped, settled, write_block_run, write_block_sent,
    write_blocks_run, write_end_run, write_end_token, write_inner_run, write_multi_opened,
    write_single_data, write_single_second, write_single_sent, write_single_status,
    write_single_waited, write_wait_run,
};
use crate::poll::{poll_byte, poll_run, Until};
use crate::proto::{
    ACMD23, ACMD41, CMD0, CMD12, CMD13, CMD17, CMD18, CMD24, CMD25, CMD55, CMD58, CMD59, CMD8,
    CMD9, DATA_START_BLOCK, STOP_TRAN_TOKEN, WRITE_MULTIPLE_TOKEN,
};
use crate::types::{AcquireOpts, CardType, Error, BLOCK_LEN};
use vstd::prelude::*;

verus! {

/// The most actions that a poll with `left` retries issues: a transfer for
/// every try and a pause for every retry.
pub open spec fn poll_most(left: nat) -> nat {
    2 * left + 1
}

/// The most actions that a command issues: two polls within the budget of
/// a command, the frame and the stuff byte.
pub const COMMAND_MOST: usize = 40_004;

/// The most actions that an application-specific command issues.
pub const ACMD_MOST: usize = 80_008;

/// The most actions that the reading of a data packet issues: one poll
/// within the budget of a read, the payload and the checksum.
pub const READ_DATA_MOST: usize = 20_003;

/// The most actions that the writing of a data packet issues.
pub const WRITE_DATA_MOST: usize = 4;

/// A poll keeps pace, within its budget.
pub proof fn lemma_poll_paced(until: Until, left: nat, timeout: Error, replies: Seq<ReplySpec>)
    ensures
        poll_run(until, left, timeout, replies).paced(replies, poll_most(left)),
    decreases left, 1nat,
{
    lemma_poll_byte_paced(until, left, timeout, replies.first(), replies.drop_first());
    lemma_ask_paced(
        ActionSpec::Transfer(0xFF),
        replies,
        poll_byte(until, left, timeout, replies.first(), replies.drop_first()),
        2 * left,
    );
}

proof fn lemma_poll_byte_paced(
    until: Until,
    left: nat,
    timeout: Error,
    reply: ReplySpec,
    replies: Seq<ReplySpec>,
)
    ensures
        poll_byte(until, left, timeout, reply, replies).paced(replies, 2 * left),
    decreases left, 0nat,
{
    lemma_done_paced(Err::<u8, Error>(Error::Transport), replies, 2 * left);
    lemma_done_paced(Err::<u8, Error>(timeout), replies, 2 * left);
    match reply {
        ReplySpec::Byte(byte) => {
            lemma_done_paced(Ok::<u8, Error>(byte), replies, 2 * left);
            if !until.hit(byte) && left > 0 {
                lemma_poll_paced(until, (left - 1) as nat, timeout, replies.drop_first());
                lemma_ask_paced(
                    ActionSpec::DelayUs(TICK_US),
                    replies,
                    poll_run(until, (left - 1) as nat, timeout, replies.drop_first()),
                    poll_most((left - 1) as nat),
                );
            }
        },
        _ => {},
    }
}

/// A command keeps pace, within [`COMMAND_MOST`] actions.
pub proof fn lemma_command_paced(cmd: u8, arg: u32, replies: Seq<ReplySpec>)
    ensures
        command_run(cmd, arg, replies).paced(replies, COMMAND_MOST as nat),
{
    reveal(command_run);
    if cmd != CMD0 && cmd != CMD12 {
        let busy = poll_run(
            Until::Idle,
            DEFAULT_COMMAND_RETRIES as nat,
            Error::TimeoutWaitNotBusy,
            replies,
        );
        lemma_poll_paced(
            Until::Idle,
            DEFAULT_COMMAND_RETRIES as nat,
            Error::TimeoutWaitNotBusy,
            replies,
        );
        if busy.end is Some {
            lemma_done_paced(Err::<u8, Error>(busy.value()->Err_0), busy.tail(), 20_003);
            lemma_command_send_paced(cmd, arg, busy.tail());
        }
        lemma_followed_paced(
            busy,
            command_ready(cmd, arg, busy.value(), busy.tail()),
            replies,
            20_001,
            20_003,
        );
    } else {
        lemma_command_send_paced(cmd, arg, replies);
        lemma_paced_more(command_send(cmd, arg, replies), replies, 20_003, COMMAND_MOST as nat);
    }
}

proof fn lemma_command_send_paced(cmd: u8, arg: u32, replies: Seq<ReplySpec>)
    ensures
        command_send(cmd, arg, replies).paced(replies, 20_003),
{
    let reply = replies.first();
    let rest = replies.drop_first();
    let sent = command_sent(cmd, reply, rest);
    lemma_done_paced(Err::<u8, Error>(Error::Transport), rest, 20_002);
    lemma_done_paced(Err::<u8, Error>(Error::Transport), rest.drop_first(), 20_001);
    lemma_poll_paced(
        Until::Response,
        DEFAULT_COMMAND_RETRIES as nat,
        Error::TimeoutCommand(cmd),
        rest,
    );
    lemma_poll_paced(
        Until::Response,
        DEFAULT_COMMAND_RETRIES as nat,
        Error::TimeoutCommand(cmd),
        rest.drop_first(),
    );
    lemma_paced_more(command_response(cmd, rest), rest, 20_001, 20_002);
    lemma_ask_paced(
        ActionSpec::Transfer(0xFF),
        rest,
        command_stuffed(cmd, rest.first(), rest.drop_first()),
        20_001,
    );
    lemma_ask_paced(ActionSpec::Write(crate::command::frame(cmd, arg)), replies, sent, 20_002);
}

/// An application-specific command keeps pace, within [`ACMD_MOST`]
/// actions.
pub proof fn lemma_acmd_paced(cmd: u8, arg: u32, replies: Seq<ReplySpec>)
    ensures
        acmd_run(cmd, arg, replies).paced(replies, ACMD_MOST as nat),
{
    reveal(acmd_run);
    let prefix = command_run(CMD55, 0, replies);
    lemma_command_paced(CMD55, 0, replies);
    if prefix.end is Some {
        lemma_done_paced(
            Err::<u8, Error>(prefix.value()->Err_0),
            prefix.tail(),
            COMMAND_MOST as nat,
        );
        lemma_command_paced(cmd, arg, prefix.tail());
    }
    lemma_followed_paced(
        prefix,
        acmd_main(cmd, arg, prefix.value(), prefix.tail()),
        replies,
        COMMAND_MOST as nat,
        COMMAND_MOST as nat,
    );
}

/// The reading of a data packet keeps pace, within [`READ_DATA_MOST`]
/// actions.
pub proof fn lemma_read_data_paced(len: nat, use_crc: bool, replies: Seq<ReplySpec>)
    ensures
        read_data_run(len, use_crc, replies).paced(replies, READ_DATA_MOST as nat),
{
    reveal(read_data_run);
    let token = poll_run(
        Until::Token,
        DEFAULT_READ_RETRIES as nat,
        Error::TimeoutReadBuffer,
        replies,
    );
    lemma_poll_paced(Until::Token, DEFAULT_READ_RETRIES as nat, Error::TimeoutReadBuffer, replies);
    if token.end is Some {
        let rest = token.tail();
        let after = rest.drop_first();
        lemma_done_paced(Err::<Seq<u8>, Error>(token.value()->Err_0), rest, 2);
        lemma_done_paced(Err::<Seq<u8>, Error>(Error::ReadError), rest, 2);
        lemma_done_paced(Err::<Seq<u8>, Error>(Error::Transport), after, 1);
        if rest.first() is Bytes {
            let payload = rest.first()->Bytes_0;
            let last = after.drop_first();
            lemma_done_paced(Err::<Seq<u8>, Error>(Error::Transport), last, 0);
            lemma_done_paced(Ok::<Seq<u8>, Error>(payload), last, 0);
            if after.first() is Bytes {
                let crc = after.first()->Bytes_0;
                let verdict = crate::data::crc_verdict(use_crc, payload, crc[0], crc[1]);
                if verdict is Err {
                    lemma_done_paced(Err::<Seq<u8>, Error>(verdict->Err_0), last, 0);
                }
            }
            lemma_ask_paced(
                ActionSpec::Read(2),
                after,
                read_data_checksum(use_crc, payload, after.first(), after.drop_first()),
                0,
            );
        }
        lemma_ask_paced(
            ActionSpec::Read(len),
            rest,
            read_data_payload(len, use_crc, rest.first(), rest.drop_first()),
            1,
        );
    }
    lemma_followed_paced(
        token,
        read_data_token(len, use_crc, token.value(), token.tail()),
        replies,
        20_001,
        2,
    );
}

/// The writing of a data packet keeps pace, within [`WRITE_DATA_MOST`]
/// actions.
pub proof fn lemma_write_data_paced(
    token: u8,
    payload: Seq<u8>,
    use_crc: bool,
    replies: Seq<ReplySpec>,
)
    ensures
        write_data_run(token, payload, use_crc, replies).paced(replies, WRITE_DATA_MOST as nat),
{
    reveal(write_data_run);
    let r1 = replies.drop_first();
    let r2 = r1.drop_first();
    let r3 = r2.drop_first();
    let r4 = r3.drop_first();
    lemma_done_paced(Err::<(), Error>(Error::Transport), r1, 3);
    lemma_done_paced(Err::<(), Error>(Error::Transport), r2, 2);
    lemma_done_paced(Err::<(), Error>(Error::Transport), r3, 1);
    lemma_done_paced(Err::<(), Error>(Error::Transport), r4, 0);
    lemma_done_paced(Err::<(), Error>(Error::WriteError), r4, 0);
    lemma_done_paced(Ok::<(), Error>(()), r4, 0);
    lemma_ask_paced(ActionSpec::Transfer(0xFF), r3, write_data_status(r3.first(), r4), 0);
    lemma_ask_paced(
        ActionSpec::Write(crate::data::crc_trailer(use_crc, payload)),
        r2,
        write_data_trailer(r2.first(), r3),
        1,
    );
    lemma_ask_paced(
        ActionSpec::Write(payload),
        r1,
        write_data_payload(crate::data::crc_trailer(use_crc, payload), r1.first(), r2),
        2,
    );
    lemma_ask_paced(
        ActionSpec::Transfer(token),
        replies,
        write_data_token(payload, use_crc, replies.first(), r1),
        3,
    );
}

/// The most actions that the initialisation loop with `left` retries, and
/// what follows it, issue.
pub open spec fn ready_most(left: nat) -> nat {
    left * 80_009 + 120_013
}

/// The most actions that the probe loop with `left` retries, and what
/// follows it, issue.
pub open spec fn probe_most(left: nat) -> nat {
    left * 40_006 + 40_005 + ready_most(DEFAULT_COMMAND_RETRIES as nat)
}

/// The most actions that the switch to CRC mode, and what follows it,
/// issue.
pub open spec fn crc_mode_most() -> nat {
    40_004 + probe_most(DEFAULT_COMMAND_RETRIES as nat)
}

/// The most actions that the reset loop with `left` attempts to go, and
/// what follows it, issue.
pub open spec fn reset_most(left: nat) -> nat {
    left * 40_260 + crc_mode_most()
}

/// The most actions that an acquisition with at most `retries` attempts at
/// the reset issues.
pub open spec fn acquire_most(retries: nat) -> nat {
    reset_most(retries) + 5
}

/// A flush keeps pace, within as many actions as it has bytes to clock.
pub proof fn lemma_flush_paced(count: nat, replies: Seq<ReplySpec>)
    ensures
        flush_run(count, replies).paced(replies, count),
    decreases count, 1nat,
{
    lemma_done_paced(Ok::<(), Error>(()), replies, count);
    if count > 0 {
        lemma_flush_byte_paced(count, replies.first(), replies.drop_first());
        lemma_ask_paced(
            ActionSpec::Transfer(0xFF),
            replies,
            flush_byte(count, replies.first(), replies.drop_first()),
            (count - 1) as nat,
        );
    }
}

proof fn lemma_flush_byte_paced(count: nat, reply: ReplySpec, replies: Seq<ReplySpec>)
    requires
        count > 0,
    ensures
        flush_byte(count, reply, replies).paced(replies, (count - 1) as nat),
    decreases count, 0nat,
{
    lemma_done_paced(Err::<(), Error>(Error::Transport), replies, (count - 1) as nat);
    lemma_flush_paced((count - 1) as nat, replies);
}

proof fn lemma_classify_paced(card: CardType, replies: Seq<ReplySpec>)
    ensures
        classify_run(card, replies).paced(replies, 40_005),
{
    lemma_done_paced(Ok::<CardType, Error>(card), replies, 40_005);
    if card == CardType::SD2 {
        let sent = command_run(CMD58, 0, replies);
        lemma_command_paced(CMD58, 0, replies);
        if sent.end is Some {
            let rest = sent.tail();
            let last = rest.drop_first();
            lemma_done_paced(Err::<CardType, Error>(sent.value()->Err_0), rest, 1);
            lemma_done_paced(Err::<CardType, Error>(Error::Cmd58Error), rest, 1);
            lemma_done_paced(Err::<CardType, Error>(Error::Transport), last, 0);
            if rest.first() is Bytes {
                lemma_done_paced(
                    Ok::<CardType, Error>(crate::acquire::classify(rest.first()->Bytes_0[0])),
                    last,
                    0,
                );
            }
            lemma_ask_paced(ActionSpec::Read(4), rest, classify_ocr(rest.first(), last), 0);
        }
        lemma_followed_paced(
            sent,
            match sent.value() {
                Err(e) => Run::done(Err(e), sent.tail()),
                Ok(r1) => if r1 != 0 {
                    Run::done(Err(Error::Cmd58Error), sent.tail())
                } else {
                    Run::ask(
                        ActionSpec::Read(4),
                        sent.tail(),
                        classify_ocr(sent.tail().first(), sent.tail().drop_first()),
                    )
                },
            },
            replies,
            40_004,
            1,
        );
    }
}

proof fn lemma_ready_paced(card: CardType, left: nat, replies: Seq<ReplySpec>)
    ensures
        ready_run(card, left, replies).paced(replies, ready_most(left)),
    decreases left,
{
    let init = acmd_run(ACMD41, op_cond_arg(card), replies);
    lemma_acmd_paced(ACMD41, op_cond_arg(card), replies);
    let after = ready_most(left) - 80_008;
    let next = match init.value() {
        Err(e) => Run::done(Err(e), init.tail()),
        Ok(r1) => if r1 == crate::proto::R1_READY_STATE {
            classify_run(card, init.tail())
        } else if left == 0 {
            Run::done(Err(Error::TimeoutACommand(ACMD41)), init.tail())
        } else {
            Run::ask(
                ActionSpec::DelayUs(TICK_US),
                init.tail(),
                ready_run(card, (left - 1) as nat, init.tail().drop_first()),
            )
        },
    };
    if init.end is Some {
        let rest = init.tail();
        lemma_done_paced(Err::<CardType, Error>(init.value()->Err_0), rest, after as nat);
        lemma_done_paced(
            Err::<CardType, Error>(Error::TimeoutACommand(ACMD41)),
            rest,
            after as nat,
        );
        lemma_classify_paced(card, rest);
        lemma_paced_more(classify_run(card, rest), rest, 40_005, after as nat);
        if left > 0 {
            lemma_ready_paced(card, (left - 1) as nat, rest.drop_first());
            lemma_ask_paced(
                ActionSpec::DelayUs(TICK_US),
                rest,
                ready_run(card, (left - 1) as nat, rest.drop_first()),
                ready_most((left - 1) as nat),
            );
            lemma_paced_more(
                Run::ask(
                    ActionSpec::DelayUs(TICK_US),
                    rest,
                    ready_run(card, (left - 1) as nat, rest.drop_first()),
                ),
                rest,
                ready_most((left - 1) as nat) + 1,
                after as nat,
            );
        }
    }
    lemma_followed_paced(init, next, replies, ACMD_MOST as nat, after as nat);
    assert(ready_run(card, left, replies) == ready_sent(card, left, init));
    assert(ready_sent(card, left, init) == init.followed_by(next));
}

proof fn lemma_probe_paced(left: nat, replies: Seq<ReplySpec>)
    ensures
        probe_run(left, replies).paced(replies, probe_most(left)),
    decreases left,
{
    let probe = command_run(CMD8, PROBE_ARG, replies);
    lemma_command_paced(CMD8, PROBE_ARG, replies);
    let budget = DEFAULT_COMMAND_RETRIES as nat;
    let after = (probe_most(left) - 40_004) as nat;
    let next = match probe.value() {
        Err(e) => Run::done(Err(e), probe.tail()),
        Ok(r1) => if r1 == crate::acquire::R1_ILLEGAL_IDLE {
            ready_run(CardType::SD1, budget, probe.tail())
        } else {
            Run::ask(
                ActionSpec::Read(4),
                probe.tail(),
                probe_echo(left, probe.tail().first(), probe.tail().drop_first()),
            )
        },
    };
    if probe.end is Some {
        let rest = probe.tail();
        let last = rest.drop_first();
        let echo = probe_echo(left, rest.first(), last);
        lemma_done_paced(Err::<CardType, Error>(probe.value()->Err_0), rest, after);
        lemma_ready_paced(CardType::SD1, budget, rest);
        lemma_paced_more(ready_run(CardType::SD1, budget, rest), rest, ready_most(budget), after);
        lemma_done_paced(Err::<CardType, Error>(Error::Transport), last, (after - 1) as nat);
        lemma_done_paced(
            Err::<CardType, Error>(Error::TimeoutCommand(CMD8)),
            last,
            (after - 1) as nat,
        );
        lemma_ready_paced(CardType::SD2, budget, last);
        lemma_paced_more(
            ready_run(CardType::SD2, budget, last),
            last,
            ready_most(budget),
            (after - 1) as nat,
        );
        if left > 0 {
            lemma_probe_paced((left - 1) as nat, last.drop_first());
            lemma_ask_paced(
                ActionSpec::DelayUs(TICK_US),
                last,
                probe_run((left - 1) as nat, last.drop_first()),
                probe_most((left - 1) as nat),
            );
            lemma_paced_more(
                Run::ask(
                    ActionSpec::DelayUs(TICK_US),
                    last,
                    probe_run((left - 1) as nat, last.drop_first()),
                ),
                last,
                probe_most((left - 1) as nat) + 1,
                (after - 1) as nat,
            );
        }
        assert(echo.paced(last, (after - 1) as nat));
        lemma_ask_paced(ActionSpec::Read(4), rest, echo, (after - 1) as nat);
    }
    lemma_followed_paced(probe, next, replies, COMMAND_MOST as nat, after);
    assert(probe_run(left, replies) == probe_sent(left, probe));
    assert(probe_sent(left, probe) == probe.followed_by(next));
}

proof fn lemma_crc_mode_paced(use_crc: bool, replies: Seq<ReplySpec>)
    ensures
        crc_mode_run(use_crc, replies).paced(replies, crc_mode_most()),
{
    let budget = DEFAULT_COMMAND_RETRIES as nat;
    if use_crc {
        let sent = command_run(CMD59, 1, replies);
        lemma_command_paced(CMD59, 1, replies);
        if sent.end is Some {
            let rest = sent.tail();
            lemma_done_paced(Err::<CardType, Error>(sent.value()->Err_0), rest, probe_most(budget));
            lemma_done_paced(
                Err::<CardType, Error>(Error::CantEnableCRC),
                rest,
                probe_most(budget),
            );
            lemma_probe_paced(budget, rest);
        }
        lemma_followed_paced(
            sent,
            match sent.value() {
                Err(e) => Run::done(Err(e), sent.tail()),
                Ok(r1) => if r1 != crate::proto::R1_IDLE_STATE {
                    Run::done(Err(Error::CantEnableCRC), sent.tail())
                } else {
                    probe_run(budget, sent.tail())
                },
            },
            replies,
            COMMAND_MOST as nat,
            probe_most(budget),
        );
    } else {
        lemma_probe_paced(budget, replies);
        lemma_paced_more(probe_run(budget, replies), replies, probe_most(budget), crc_mode_most());
    }
}

proof fn lemma_reset_retry_paced(use_crc: bool, left: nat, replies: Seq<ReplySpec>)
    ensures
        reset_retry(use_crc, left, replies).paced(replies, (reset_most(left) - 40_259) as nat),
    decreases left, 0nat,
{
    let most = (reset_most(left) - 40_259) as nat;
    lemma_done_paced(Err::<CardType, Error>(Error::CardNotFound), replies, most);
    if left > 0 {
        lemma_reset_paced(use_crc, (left - 1) as nat, replies.drop_first());
        lemma_ask_paced(
            ActionSpec::DelayUs(TICK_US),
            replies,
            reset_run(use_crc, (left - 1) as nat, replies.drop_first()),
            reset_most((left - 1) as nat),
        );
        lemma_paced_more(
            Run::ask(
                ActionSpec::DelayUs(TICK_US),
                replies,
                reset_run(use_crc, (left - 1) as nat, replies.drop_first()),
            ),
            replies,
            reset_most((left - 1) as nat) + 1,
            most,
        );
    }
}

proof fn lemma_reset_paced(use_crc: bool, left: nat, replies: Seq<ReplySpec>)
    ensures
        reset_run(use_crc, left, replies).paced(replies, reset_most(left)),
    decreases left, 1nat,
{
    if left == 0 {
        lemma_done_paced(Err::<CardType, Error>(Error::CardNotFound), replies, reset_most(left));
    } else {
        let reset = command_run(CMD0, 0, replies);
        lemma_command_paced(CMD0, 0, replies);
        let after = (reset_most(left) - 40_004) as nat;
        let next = reset_answered(use_crc, left, reset.value(), reset.tail());
        if reset.end is Some {
            let rest = reset.tail();
            lemma_done_paced(Err::<CardType, Error>(reset.value()->Err_0), rest, after);
            lemma_crc_mode_paced(use_crc, rest);
            lemma_paced_more(crc_mode_run(use_crc, rest), rest, crc_mode_most(), after);
            lemma_reset_retry_paced(use_crc, left, rest);
            lemma_paced_more(
                reset_retry(use_crc, left, rest),
                rest,
                (reset_most(left) - 40_259) as nat,
                after,
            );
            let flush = flush_run(FLUSH_LEN as nat, rest);
            lemma_flush_paced(FLUSH_LEN as nat, rest);
            if flush.end is Some {
                lemma_done_paced(
                    Err::<CardType, Error>(flush.value()->Err_0),
                    flush.tail(),
                    (after - 255) as nat,
                );
                lemma_reset_retry_paced(use_crc, left, flush.tail());
                lemma_paced_more(
                    reset_retry(use_crc, left, flush.tail()),
                    flush.tail(),
                    (reset_most(left) - 40_259) as nat,
                    (after - 255) as nat,
                );
            }
            lemma_followed_paced(
                flush,
                match flush.value() {
                    Ok(()) => reset_retry(use_crc, left, flush.tail()),
                    Err(e) => Run::done(Err(e), flush.tail()),
                },
                rest,
                255,
                (after - 255) as nat,
            );
            assert(reset_flushed(use_crc, left, flush) == flush.followed_by(
                match flush.value() {
                    Ok(()) => reset_retry(use_crc, left, flush.tail()),
                    Err(e) => Run::done(Err(e), flush.tail()),
                },
            ));
            assert(next.paced(rest, after));
        }
        lemma_followed_paced(reset, next, replies, COMMAND_MOST as nat, after);
        assert(reset_run(use_crc, left, replies) == reset_sent(use_crc, left, reset));
        assert(reset_sent(use_crc, left, reset) == reset.followed_by(next));
    }
}

/// An acquisition up to the release of the bus keeps pace, within three
/// actions more than its reset loop.
pub proof fn lemma_acquire_inner_paced(opts: AcquireOpts, replies: Seq<ReplySpec>)
    ensures
        acquire_inner_run(opts, replies).paced(
            replies,
            reset_most(opts.acquire_retries as nat) + 3,
        ),
{
    let retries = opts.acquire_retries as nat;
    let r1 = replies.drop_first();
    let r2 = r1.drop_first();
    let r3 = r2.drop_first();
    lemma_done_paced(Err::<CardType, Error>(Error::GpioError), r1, reset_most(retries) + 2);
    lemma_done_paced(Err::<CardType, Error>(Error::Transport), r2, reset_most(retries) + 1);
    lemma_done_paced(Err::<CardType, Error>(Error::GpioError), r3, reset_most(retries));
    lemma_reset_paced(opts.use_crc, retries, r3);
    lemma_ask_paced(
        ActionSpec::CsLow,
        r2,
        acquire_selected(opts, r2.first(), r3),
        reset_most(retries),
    );
    lemma_ask_paced(
        ActionSpec::Write(Seq::new(WAKE_LEN as nat, |i: int| 0xFFu8)),
        r1,
        acquire_woken(opts, r1.first(), r2),
        reset_most(retries) + 1,
    );
    lemma_ask_paced(
        ActionSpec::CsHigh,
        replies,
        acquire_deselected(opts, replies.first(), r1),
        reset_most(retries) + 2,
    );
}

/// An acquisition keeps pace, within [`acquire_most`] actions.
pub proof fn lemma_acquire_paced(opts: AcquireOpts, replies: Seq<ReplySpec>)
    ensures
        acquire_run(opts, replies).paced(replies, acquire_most(opts.acquire_retries as nat)),
{
    reveal(acquire_run);
    let retries = opts.acquire_retries as nat;
    lemma_acquire_inner_paced(opts, replies);
    let attempt = acquire_inner_run(opts, replies);
    if attempt.end is Some {
        let rest = attempt.tail();
        let last = rest.drop_first();
        lemma_done_paced(Err::<CardType, Error>(Error::GpioError), last, 1);
        lemma_done_paced(attempt.value(), last.drop_first(), 0);
        lemma_ask_paced(
            ActionSpec::Transfer(0xFF),
            last,
            Run::done(attempt.value(), last.drop_first()),
            0,
        );
        lemma_ask_paced(
            ActionSpec::CsHigh,
            rest,
            acquire_released(attempt.value(), rest.first(), last),
            1,
        );
    }
    lemma_followed_paced(
        attempt,
        acquire_release(attempt.value(), attempt.tail()),
        replies,
        reset_most(retries) + 3,
        2,
    );
}

/// The most actions that a wait within the budget of a write issues.
pub const WRITE_WAIT_MOST: usize = 100_001;

/// The most actions that the opening of a multiple-block write issues.
pub const PREPARE_MOST: usize = 220_013;

/// The most actions that one block of a multiple-block write issues.
pub const WRITE_BLOCK_MOST: usize = 100_005;

/// The most actions that the closing of a multiple-block write issues.
pub const WRITE_END_MOST: usize = 100_002;

/// The most actions that a read of the register issues.
pub const READ_CSD_MOST: usize = 60_007;

/// The most actions that a read of `count` blocks issues between selecting
/// the card and deselecting it.
pub open spec fn read_inner_most(count: nat) -> nat {
    count * 20_003 + 80_008
}

/// The most actions that a write of `count` blocks issues between
/// selecting the card and deselecting it.
pub open spec fn write_inner_most(count: nat) -> nat {
    count * 100_005 + 320_015
}

proof fn lemma_write_wait_paced(replies: Seq<ReplySpec>)
    ensures
        write_wait_run(replies).paced(replies, WRITE_WAIT_MOST as nat),
{
    lemma_poll_paced(
        Until::Idle,
        DEFAULT_WRITE_RETRIES as nat,
        Error::TimeoutWaitNotBusy,
        replies,
    );
}

proof fn lemma_settled_paced(sent: Run<Result<u8, Error>>, replies: Seq<ReplySpec>, most: nat)
    requires
        sent.paced(replies, most),
    ensures
        settled(sent).paced(replies, most),
{
    let result = match sent.value() {
        Ok(_) => Ok::<(), Error>(()),
        Err(e) => Err::<(), Error>(e),
    };
    lemma_done_paced(result, sent.tail(), 0);
    lemma_followed_paced(sent, Run::done(result, sent.tail()), replies, most, 0);
}

proof fn lemma_read_blocks_paced(
    use_crc: bool,
    left: nat,
    got: Seq<Seq<u8>>,
    replies: Seq<ReplySpec>,
)
    ensures
        read_blocks_run(use_crc, left, got, replies).paced(replies, left * 20_003 + 40_004),
    decreases left,
{
    if left == 0 {
        let sent = command_run(CMD12, 0, replies);
        lemma_command_paced(CMD12, 0, replies);
        let next = match sent.value() {
            Err(e) => Run::done(Err(e), sent.tail()),
            Ok(_) => Run::done(Ok(got), sent.tail()),
        };
        lemma_done_paced(Err::<Seq<Seq<u8>>, Error>(sent.value()->Err_0), sent.tail(), 0);
        lemma_done_paced(Ok::<Seq<Seq<u8>>, Error>(got), sent.tail(), 0);
        lemma_followed_paced(sent, next, replies, COMMAND_MOST as nat, 0);
        assert(read_stopped(got, sent) == sent.followed_by(next));
    } else {
        let data = read_data_run(BLOCK_LEN as nat, use_crc, replies);
        lemma_read_data_paced(BLOCK_LEN as nat, use_crc, replies);
        let after = ((left - 1) * 20_003 + 40_004) as nat;
        let next = match data.value() {
            Err(e) => Run::done(Err(e), data.tail()),
            Ok(payload) => read_blocks_run(
                use_crc,
                (left - 1) as nat,
                got.push(payload),
                data.tail(),
            ),
        };
        if data.end is Some {
            lemma_done_paced(Err::<Seq<Seq<u8>>, Error>(data.value()->Err_0), data.tail(), after);
            lemma_read_blocks_paced(
                use_crc,
                (left - 1) as nat,
                got.push(data.value()->Ok_0),
                data.tail(),
            );
        }
        lemma_followed_paced(data, next, replies, READ_DATA_MOST as nat, after);
        assert(read_block(use_crc, left, got, data) == data.followed_by(next));
        assert(read_blocks_run(
            use_crc,
            left,
            got,
            replies,
        ) == read_block(use_crc, left, got, data));
    }
}

/// A read of blocks keeps pace, within [`read_inner_most`] actions.
pub proof fn lemma_read_inner_paced(use_crc: bool, count: nat, arg: u32, replies: Seq<ReplySpec>)
    ensures
        read_inner_run(use_crc, count, arg, replies).paced(replies, read_inner_most(count)),
{
    reveal(read_inner_run);
    if count == 1 {
        let sent = command_run(CMD17, arg, replies);
        lemma_command_paced(CMD17, arg, replies);
        if sent.end is Some {
            let rest = sent.tail();
            let data = read_data_run(BLOCK_LEN as nat, use_crc, rest);
            lemma_read_data_paced(BLOCK_LEN as nat, use_crc, rest);
            lemma_done_paced(Err::<Seq<Seq<u8>>, Error>(sent.value()->Err_0), rest, 20_003);
            if data.end is Some {
                lemma_done_paced(
                    Err::<Seq<Seq<u8>>, Error>(data.value()->Err_0),
                    data.tail(),
                    0,
                );
                lemma_done_paced(
                    Ok::<Seq<Seq<u8>>, Error>(seq![data.value()->Ok_0]),
                    data.tail(),
                    0,
                );
            }
            lemma_followed_paced(
                data,
                match data.value() {
                    Err(e) => Run::done(Err(e), data.tail()),
                    Ok(payload) => Run::done(Ok(seq![payload]), data.tail()),
                },
                rest,
                READ_DATA_MOST as nat,
                0,
            );
        }
        lemma_followed_paced(
            sent,
            match sent.value() {
                Err(e) => Run::done(Err(e), sent.tail()),
                Ok(_) => read_single_data(read_data_run(BLOCK_LEN as nat, use_crc, sent.tail())),
            },
            replies,
            COMMAND_MOST as nat,
            20_003,
        );
        lemma_paced_more(
            read_single_sent(use_crc, sent),
            replies,
            60_007,
            read_inner_most(count),
        );
    } else {
        let sent = command_run(CMD18, arg, replies);
        lemma_command_paced(CMD18, arg, replies);
        let after = (count * 20_003 + 40_004) as nat;
        if sent.end is Some {
            lemma_done_paced(Err::<Seq<Seq<u8>>, Error>(sent.value()->Err_0), sent.tail(), after);
            lemma_read_blocks_paced(use_crc, count, Seq::empty(), sent.tail());
        }
        lemma_followed_paced(
            sent,
            match sent.value() {
                Err(e) => Run::done(Err(e), sent.tail()),
                Ok(_) => read_blocks_run(use_crc, count, Seq::empty(), sent.tail()),
            },
            replies,
            COMMAND_MOST as nat,
            after,
        );
        assert(read_multi_sent(use_crc, count, sent).paced(replies, read_inner_most(count)));
    }
}

/// The opening of a multiple-block write keeps pace, within
/// [`PREPARE_MOST`] actions.
pub proof fn lemma_prepare_inner_paced(arg: u32, len: u32, replies: Seq<ReplySpec>)
    ensures
        prepare_inner_run(arg, len, replies).paced(replies, PREPARE_MOST as nat),
{
    reveal(prepare_inner_run);
    let sent = acmd_run(ACMD23, len, replies);
    lemma_acmd_paced(ACMD23, len, replies);
    if sent.end is Some {
        let busy = write_wait_run(sent.tail());
        lemma_write_wait_paced(sent.tail());
        lemma_done_paced(Err::<(), Error>(sent.value()->Err_0), sent.tail(), 140_005);
        if busy.end is Some {
            let open = command_run(CMD25, arg, busy.tail());
            lemma_command_paced(CMD25, arg, busy.tail());
            lemma_settled_paced(open, busy.tail(), COMMAND_MOST as nat);
            lemma_done_paced(
                Err::<(), Error>(busy.value()->Err_0),
                busy.tail(),
                COMMAND_MOST as nat,
            );
        }
        lemma_followed_paced(
            busy,
            match busy.value() {
                Err(e) => Run::done(Err(e), busy.tail()),
                Ok(_) => settled(command_run(CMD25, arg, busy.tail())),
            },
            sent.tail(),
            WRITE_WAIT_MOST as nat,
            COMMAND_MOST as nat,
        );
    }
    lemma_followed_paced(
        sent,
        match sent.value() {
            Err(e) => Run::done(Err(e), sent.tail()),
            Ok(_) => prepare_waited(arg, write_wait_run(sent.tail())),
        },
        replies,
        ACMD_MOST as nat,
        140_005,
    );
}

/// One block of a multiple-block write keeps pace, within
/// [`WRITE_BLOCK_MOST`] actions.
pub proof fn lemma_write_block_paced(block: Seq<u8>, use_crc: bool, replies: Seq<ReplySpec>)
    ensures
        write_block_run(block, use_crc, replies).paced(replies, WRITE_BLOCK_MOST as nat),
{
    reveal(write_block_run);
    let busy = write_wait_run(replies);
    lemma_write_wait_paced(replies);
    if busy.end is Some {
        lemma_done_paced(Err::<(), Error>(busy.value()->Err_0), busy.tail(), 4);
        lemma_write_data_paced(WRITE_MULTIPLE_TOKEN, block, use_crc, busy.tail());
    }
    lemma_followed_paced(
        busy,
        match busy.value() {
            Err(e) => Run::done(Err(e), busy.tail()),
            Ok(_) => write_data_run(WRITE_MULTIPLE_TOKEN, block, use_crc, busy.tail()),
        },
        replies,
        WRITE_WAIT_MOST as nat,
        4,
    );
}

/// The closing of a multiple-block write keeps pace, within
/// [`WRITE_END_MOST`] actions.
pub proof fn lemma_write_end_paced(replies: Seq<ReplySpec>)
    ensures
        write_end_run(replies).paced(replies, WRITE_END_MOST as nat),
{
    reveal(write_end_run);
    let busy = write_wait_run(replies);
    lemma_write_wait_paced(replies);
    if busy.end is Some {
        let rest = busy.tail();
        lemma_done_paced(Err::<(), Error>(busy.value()->Err_0), rest, 1);
        lemma_done_paced(Err::<(), Error>(Error::Transport), rest.drop_first(), 0);
        lemma_done_paced(Ok::<(), Error>(()), rest.drop_first(), 0);
        lemma_ask_paced(
            ActionSpec::Transfer(STOP_TRAN_TOKEN),
            rest,
            write_end_token(rest.first(), rest.drop_first()),
            0,
        );
    }
    lemma_followed_paced(
        busy,
        match busy.value() {
            Err(e) => Run::done(Err(e), busy.tail()),
            Ok(_) => Run::ask(
                ActionSpec::Transfer(STOP_TRAN_TOKEN),
                busy.tail(),
                write_end_token(busy.tail().first(), busy.tail().drop_first()),
            ),
        },
        replies,
        WRITE_WAIT_MOST as nat,
        1,
    );
}

proof fn lemma_write_blocks_paced(
    use_crc: bool,
    blocks: Seq<Seq<u8>>,
    next: nat,
    replies: Seq<ReplySpec>,
)
    requires
        next <= blocks.len(),
    ensures
        write_blocks_run(use_crc, blocks, next, replies).paced(
            replies,
            ((blocks.len() - next) * 100_005 + 100_002) as nat,
        ),
    decreases blocks.len() - next,
{
    if next >= blocks.len() {
        lemma_write_end_paced(replies);
    } else {
        let sent = write_block_run(blocks[next as int], use_crc, replies);
        lemma_write_block_paced(blocks[next as int], use_crc, replies);
        let after = ((blocks.len() - next - 1) * 100_005 + 100_002) as nat;
        let then = match sent.value() {
            Err(e) => Run::done(Err(e), sent.tail()),
            Ok(_) => write_blocks_run(use_crc, blocks, next + 1, sent.tail()),
        };
        if sent.end is Some {
            lemma_done_paced(Err::<(), Error>(sent.value()->Err_0), sent.tail(), after);
            lemma_write_blocks_paced(use_crc, blocks, next + 1, sent.tail());
        }
        lemma_followed_paced(sent, then, replies, WRITE_BLOCK_MOST as nat, after);
        assert(write_block_sent(use_crc, blocks, next, sent) == sent.followed_by(then));
        assert(write_blocks_run(use_crc, blocks, next, replies) == write_block_sent(
            use_crc,
            blocks,
            next,
            sent,
        ));
    }
}

proof fn lemma_write_single_paced(use_crc: bool, block: Seq<u8>, arg: u32, replies: Seq<ReplySpec>)
    ensures
        write_single_sent(use_crc, block, command_run(CMD24, arg, replies)).paced(
            replies,
            180_014,
        ),
{
    let sent = command_run(CMD24, arg, replies);
    lemma_command_paced(CMD24, arg, replies);
    if sent.end is Some {
        let data = write_data_run(DATA_START_BLOCK, block, use_crc, sent.tail());
        lemma_write_data_paced(DATA_START_BLOCK, block, use_crc, sent.tail());
        lemma_done_paced(Err::<(), Error>(sent.value()->Err_0), sent.tail(), 140_010);
        if data.end is Some {
            let busy = write_wait_run(data.tail());
            lemma_write_wait_paced(data.tail());
            lemma_done_paced(Err::<(), Error>(data.value()->Err_0), data.tail(), 140_006);
            if busy.end is Some {
                let status = command_run(CMD13, 0, busy.tail());
                lemma_command_paced(CMD13, 0, busy.tail());
                lemma_done_paced(Err::<(), Error>(busy.value()->Err_0), busy.tail(), 40_005);
                if status.end is Some {
                    let rest = status.tail();
                    lemma_done_paced(Err::<(), Error>(status.value()->Err_0), rest, 1);
                    lemma_done_paced(Err::<(), Error>(Error::WriteError), rest, 1);
                    lemma_done_paced(Err::<(), Error>(Error::WriteError), rest.drop_first(), 0);
                    lemma_done_paced(Err::<(), Error>(Error::Transport), rest.drop_first(), 0);
                    lemma_done_paced(Ok::<(), Error>(()), rest.drop_first(), 0);
                    lemma_ask_paced(
                        ActionSpec::Transfer(0xFF),
                        rest,
                        write_single_second(rest.first(), rest.drop_first()),
                        0,
                    );
                }
                lemma_followed_paced(
                    status,
                    match status.value() {
                        Err(e) => Run::done(Err(e), status.tail()),
                        Ok(r1) => if r1 != 0 {
                            Run::done(Err(Error::WriteError), status.tail())
                        } else {
                            Run::ask(
                                ActionSpec::Transfer(0xFF),
                                status.tail(),
                                write_single_second(
                                    status.tail().first(),
                                    status.tail().drop_first(),
                                ),
                            )
                        },
                    },
                    busy.tail(),
                    COMMAND_MOST as nat,
                    1,
                );
            }
            lemma_followed_paced(
                busy,
                match busy.value() {
                    Err(e) => Run::done(Err(e), busy.tail()),
                    Ok(_) => write_single_status(command_run(CMD13, 0, busy.tail())),
                },
                data.tail(),
                WRITE_WAIT_MOST as nat,
                40_005,
            );
        }
        lemma_followed_paced(
            data,
            match data.value() {
                Err(e) => Run::done(Err(e), data.tail()),
                Ok(_) => write_single_waited(write_wait_run(data.tail())),
            },
            sent.tail(),
            WRITE_DATA_MOST as nat,
            140_006,
        );
    }
    lemma_followed_paced(
        sent,
        match sent.value() {
            Err(e) => Run::done(Err(e), sent.tail()),
            Ok(_) => write_single_data(
                write_data_run(DATA_START_BLOCK, block, use_crc, sent.tail()),
            ),
        },
        replies,
        COMMAND_MOST as nat,
        140_010,
    );
}

/// A write of blocks keeps pace, within [`write_inner_most`] actions.
pub proof fn lemma_write_inner_paced(
    use_crc: bool,
    blocks: Seq<Seq<u8>>,
    arg: u32,
    replies: Seq<ReplySpec>,
)
    ensures
        write_inner_run(use_crc, blocks, arg, replies).paced(
            replies,
            write_inner_most(blocks.len()),
        ),
{
    reveal(write_inner_run);
    if blocks.len() == 1 {
        lemma_write_single_paced(use_crc, blocks[0], arg, replies);
        lemma_paced_more(
            write_single_sent(use_crc, blocks[0], command_run(CMD24, arg, replies)),
            replies,
            180_014,
            write_inner_most(blocks.len()),
        );
    } else {
        let opened = prepare_inner_run(arg, blocks.len() as u32, replies);
        lemma_prepare_inner_paced(arg, blocks.len() as u32, replies);
        let after = (blocks.len() * 100_005 + 100_002) as nat;
        if opened.end is Some {
            lemma_done_paced(Err::<(), Error>(opened.value()->Err_0), opened.tail(), after);
            lemma_write_blocks_paced(use_crc, blocks, 0, opened.tail());
        }
        lemma_followed_paced(
            opened,
            match opened.value() {
                Err(e) => Run::done(Err(e), opened.tail()),
                Ok(_) => write_blocks_run(use_crc, blocks, 0, opened.tail()),
            },
            replies,
            PREPARE_MOST as nat,
            after,
        );
        assert(write_multi_opened(use_crc, blocks, opened).paced(
            replies,
            write_inner_most(blocks.len()),
        ));
    }
}

/// A read of the register keeps pace, within [`READ_CSD_MOST`] actions.
pub proof fn lemma_read_csd_paced(card: Option<CardType>, use_crc: bool, replies: Seq<ReplySpec>)
    ensures
        read_csd_run(card, use_crc, replies).paced(replies, READ_CSD_MOST as nat),
{
    reveal(read_csd_run);
    lemma_done_paced(Err::<Seq<u8>, Error>(Error::CardNotFound), replies, READ_CSD_MOST as nat);
    if card is Some {
        let sent = command_run(CMD9, 0, replies);
        lemma_command_paced(CMD9, 0, replies);
        if sent.end is Some {
            lemma_done_paced(Err::<Seq<u8>, Error>(sent.value()->Err_0), sent.tail(), 20_003);
            lemma_done_paced(
                Err::<Seq<u8>, Error>(Error::RegisterReadError),
                sent.tail(),
                20_003,
            );
            lemma_read_data_paced(CSD_LEN as nat, use_crc, sent.tail());
        }
        lemma_followed_paced(
            sent,
            match sent.value() {
                Err(e) => Run::done(Err(e), sent.tail()),
                Ok(r1) => if r1 != 0 {
                    Run::done(Err(Error::RegisterReadError), sent.tail())
                } else {
                    read_data_run(CSD_LEN as nat, use_crc, sent.tail())
                },
            },
            replies,
            COMMAND_MOST as nat,
            20_003,
        );
        assert(read_csd_sent(use_crc, sent).paced(replies, READ_CSD_MOST as nat));
    }
}

/// The most actions that the body of a transaction issues.
pub open spec fn body_most(plan: PlanSpec) -> nat {
    match plan {
        PlanSpec::Read { count, .. } => read_inner_most(count),
        PlanSpec::Write { blocks, .. } => write_inner_most(blocks.len()),
        PlanSpec::Query { .. } => READ_CSD_MOST as nat,
        PlanSpec::PrepareRead { .. } => COMMAND_MOST as nat,
        PlanSpec::PrepareWrite { .. } => PREPARE_MOST as nat,
        PlanSpec::EndRead => COMMAND_MOST as nat,
        PlanSpec::EndWrite => WRITE_END_MOST as nat,
    }
}

/// The most actions that a request issues on a card that is known.
pub open spec fn request_most(request: RequestSpec) -> nat {
    match request {
        RequestSpec::Read { count, .. } => read_inner_most(count) + 2,
        RequestSpec::Write { blocks, .. } => write_inner_most(blocks.len()) + 2,
        RequestSpec::Query(_) => READ_CSD_MOST as nat + 2,
        RequestSpec::CardType => 0,
        RequestSpec::PrepareRead { .. } => COMMAND_MOST as nat + 2,
        RequestSpec::PrepareWrite { .. } => PREPARE_MOST as nat + 2,
    }
}

/// The most actions that a request issues, the acquisition of the card
/// included.
pub open spec fn lazy_most(retries: nat, request: RequestSpec) -> nat {
    acquire_most(retries) + request_most(request)
}

/// The body of a transaction keeps pace, within [`body_most`] actions.
pub proof fn lemma_body_paced(plan: PlanSpec, use_crc: bool, replies: Seq<ReplySpec>)
    ensures
        body_run(plan, use_crc, replies).paced(replies, body_most(plan)),
{
    match plan {
        PlanSpec::Read { count, arg } => {
            lemma_read_inner_paced(use_crc, count, arg, replies);
        },
        PlanSpec::Write { blocks, arg } => {
            lemma_write_inner_paced(use_crc, blocks, arg, replies);
        },
        PlanSpec::Query { card, query } => {
            lemma_read_csd_paced(card, use_crc, replies);
        },
        PlanSpec::PrepareRead { arg } => {
            lemma_command_paced(CMD18, arg, replies);
            lemma_settled_paced(command_run(CMD18, arg, replies), replies, COMMAND_MOST as nat);
        },
        PlanSpec::PrepareWrite { arg, len } => {
            lemma_prepare_inner_paced(arg, len, replies);
        },
        PlanSpec::EndRead => {
            lemma_command_paced(CMD12, 0, replies);
            lemma_settled_paced(command_run(CMD12, 0, replies), replies, COMMAND_MOST as nat);
        },
        PlanSpec::EndWrite => {
            lemma_write_end_paced(replies);
        },
    }
}

/// A transaction keeps pace, within two actions more than its body.
pub proof fn lemma_transaction_paced(plan: PlanSpec, use_crc: bool, replies: Seq<ReplySpec>)
    ensures
        transaction_run(plan, use_crc, replies).paced(replies, body_most(plan) + 2),
{
    reveal(transaction_run);
    let most = body_most(plan);
    let inside = if plan.selects() {
        replies.drop_first()
    } else {
        replies
    };
    let body = body_run(plan, use_crc, inside);
    lemma_body_paced(plan, use_crc, inside);
    let end = if plan.releases_always() || body.value() is Err {
        release(body.value(), body.tail())
    } else {
        Run::done(body.value(), body.tail())
    };
    if body.end is Some {
        let rest = body.tail();
        lemma_done_paced(body.value(), rest, 1);
        lemma_done_paced(body.value(), rest.drop_first(), 0);
        lemma_done_paced(Err::<OutputSpec, Error>(Error::GpioError), rest.drop_first(), 0);
        lemma_ask_paced(
            ActionSpec::CsHigh,
            rest,
            released(body.value(), rest.first(), rest.drop_first()),
            0,
        );
    }
    lemma_followed_paced(body, end, inside, most, 1);
    assert(closing(plan.releases_always(), body) == body.followed_by(end));
    if plan.selects() {
        lemma_done_paced(Err::<OutputSpec, Error>(Error::GpioError), inside, most + 1);
        lemma_ask_paced(
            ActionSpec::CsLow,
            replies,
            transaction_selected(plan, use_crc, replies.first(), inside),
            most + 1,
        );
    } else {
        lemma_paced_more(closing(plan.releases_always(), body), replies, most + 1, most + 2);
    }
}

proof fn lemma_request_paced(
    card: Option<CardType>,
    use_crc: bool,
    request: RequestSpec,
    replies: Seq<ReplySpec>,
)
    ensures
        request_run(card, use_crc, request, replies).paced(replies, request_most(request)),
{
    reveal(request_run);
    lemma_done_paced(
        Err::<OutputSpec, Error>(Error::CardNotFound),
        replies,
        request_most(request),
    );
    lemma_done_paced(Ok::<OutputSpec, Error>(OutputSpec::Card(card)), replies, 0);
    match request {
        RequestSpec::Query(query) => {
            lemma_transaction_paced(PlanSpec::Query { card, query }, use_crc, replies);
        },
        RequestSpec::CardType => {},
        _ => {
            if card is Some {
                let known = card->Some_0;
                match request {
                    RequestSpec::Read { count, start } => {
                        lemma_transaction_paced(
                            PlanSpec::Read { count, arg: crate::inner::wire_address(known, start) },
                            use_crc,
                            replies,
                        );
                    },
                    RequestSpec::Write { blocks, start } => {
                        lemma_transaction_paced(
                            PlanSpec::Write {
                                blocks,
                                arg: crate::inner::wire_address(known, start),
                            },
                            use_crc,
                            replies,
                        );
                    },
                    RequestSpec::PrepareRead { start } => {
                        lemma_transaction_paced(
                            PlanSpec::PrepareRead { arg: crate::inner::wire_address(known, start) },
                            use_crc,
                            replies,
                        );
                    },
                    RequestSpec::PrepareWrite { start, len } => {
                        lemma_transaction_paced(
                            PlanSpec::PrepareWrite {
                                arg: crate::inner::wire_address(known, start),
                                len,
                            },
                            use_crc,
                            replies,
                        );
                    },
                    _ => {},
                }
            }
        },
    }
}

proof fn lemma_knowing_paced(
    run: Run<Outcome>,
    card: Option<CardType>,
    replies: Seq<ReplySpec>,
    most: nat,
)
    requires
        run.paced(replies, most),
    ensures
        knowing(run, card).paced(replies, most),
{
}

/// No operation of the block device waits for ever. An operation takes one
/// reply for each action, in order, and is over within [`lazy_most`]
/// actions: on a bus that answers that many times it comes to an end,
/// whatever the answers are.
pub proof fn law_operation_ends(
    card: Option<CardType>,
    opts: AcquireOpts,
    request: RequestSpec,
    replies: Seq<ReplySpec>,
)
    ensures
        lazy_run(card, opts, request, replies).paced(
            replies,
            lazy_most(opts.acquire_retries as nat, request),
        ),
        replies.len() >= lazy_most(opts.acquire_retries as nat, request) ==> lazy_run(
            card,
            opts,
            request,
            replies,
        ).end is Some,
{
    let retries = opts.acquire_retries as nat;
    let most = lazy_most(retries, request);
    let run = lazy_run(card, opts, request, replies);
    if card is Some {
        let served = request_run(card, opts.use_crc, request, replies);
        lemma_request_paced(card, opts.use_crc, request, replies);
        lemma_knowing_paced(served, card, replies, request_most(request));
        lemma_paced_more(run, replies, request_most(request), most);
    } else {
        let check = acquire_op_run(opts, replies);
        lemma_acquire_paced(opts, replies);
        assert(check.paced(replies, acquire_most(retries)));
        let next = match check.value() {
            Ok(OutputSpec::Card(Some(found))) => knowing(
                request_run(Some(found), opts.use_crc, request, check.tail()),
                Some(found),
            ),
            Ok(_) => Run::done((Err(Error::CardNotFound), None), check.tail()),
            Err(e) => Run::done((unserved(request, e), None), check.tail()),
        };
        if check.end is Some {
            lemma_done_paced(
                (Err::<OutputSpec, Error>(Error::CardNotFound), None::<CardType>),
                check.tail(),
                request_most(request),
            );
            lemma_done_paced(
                (unserved(request, check.value()->Err_0), None::<CardType>),
                check.tail(),
                request_most(request),
            );
            match check.value() {
                Ok(OutputSpec::Card(Some(found))) => {
                    lemma_request_paced(Some(found), opts.use_crc, request, check.tail());
                    lemma_knowing_paced(
                        request_run(Some(found), opts.use_crc, request, check.tail()),
                        Some(found),
                        check.tail(),
                        request_most(request),
                    );
                },
                _ => {},
            }
        }
        lemma_followed_paced(check, next, replies, acquire_most(retries), request_most(request));
        assert(run == check.followed_by(next));
    }
    lemma_paced_more(run, replies, most, most);
}

/// No operation of a session waits for ever: a packet or block, and the
/// closing of the transfer if it fails, keep pace and are over within a
/// bound.
pub proof fn law_transfer_ends(
    use_crc: bool,
    reading: bool,
    data: Run<Settled>,
    replies: Seq<ReplySpec>,
    most: nat,
)
    requires
        data.paced(replies, most),
    ensures
        guarded(use_crc, reading, data).paced(replies, most + WRITE_END_MOST as nat + 2),
        replies.len() >= most + WRITE_END_MOST as nat + 2 ==> guarded(
            use_crc,
            reading,
            data,
        ).end is Some,
{
    let after = WRITE_END_MOST as nat + 2;
    let plan = if reading {
        PlanSpec::EndRead
    } else {
        PlanSpec::EndWrite
    };
    let next = match data.value().0 {
        Ok(_) => Run::done(data.value(), data.tail()),
        Err(e) => stopped(
            e,
            knowing(
                if reading {
                    end_read_run(use_crc, data.tail())
                } else {
                    end_write_run(use_crc, data.tail())
                },
                data.value().1,
            ),
        ),
    };
    if data.end is Some {
        let rest = data.tail();
        lemma_done_paced(data.value(), rest, after);
        let stop = knowing(transaction_run(plan, use_crc, rest), data.value().1);
        lemma_transaction_paced(plan, use_crc, rest);
        lemma_paced_more(
            transaction_run(plan, use_crc, rest),
            rest,
            body_most(plan) + 2,
            after,
        );
        lemma_knowing_paced(transaction_run(plan, use_crc, rest), data.value().1, rest, after);
        if data.value().0 is Err {
            let e = data.value().0->Err_0;
            let result = (
                match stop.value().0 {
                    Err(late) => Err::<OutputSpec, Error>(late),
                    Ok(_) => Err::<OutputSpec, Error>(e),
                },
                stop.value().1,
            );
            lemma_done_paced(result, stop.tail(), 0);
            lemma_followed_paced(stop, Run::done(result, stop.tail()), rest, after, 0);
            assert(stopped(e, stop) == stop.followed_by(Run::done(result, stop.tail())));
        }
    }
    lemma_followed_paced(data, next, replies, most, after);
    lemma_paced_more(guarded(use_crc, reading, data), replies, most + after, most + after);
}

} // verus!
