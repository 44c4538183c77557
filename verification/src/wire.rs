//! What goes over the wire in a conversation: the payloads that the engine
//! writes, and the payloads that it is handed when it reads.
//!
//! A card that keeps what it was sent and sends what it keeps is not part
//! of this library. What the library owes such a card is stated here: a
//! write puts the blocks on the wire, in order and unchanged, and a read
//! hands back what came off the wire, in order and unchanged.

use crate::bus::{ActionSpec, ReplySpec, Run};
use crate::command::{
    acmd_main, acmd_run, command_ready, command_run, command_send, command_sent, command_stuffed,
    frame,
};
use crate::data::{
    crc_trailer, read_data_checksum, read_data_payload, read_data_run, read_data_token,
    write_data_payload, write_data_run, write_data_status, write_data_token, write_data_trailer,
};
use crate::delay::TICK_US;
use crate::inner::{read_data_op_run, wire_address, write_inner_block_run};
use crate::multiblock::{guarded, session_read_run, session_write_run, State};
use crate::outcome::OutputSpec;
use crate::register::{answer_of, read_csd_run, Query, CSD_LEN};
use crate::sdcard::{knowing, lazy_run, request_run, RequestSpec};
use crate::transaction::{
    body_run, closing, release, released, transaction_run, transaction_selected, PlanSpec,
};
use crate::transfer::{
    prepare_inner_run, prepare_waited, read_block, read_blocks_run, read_inner_run,
    read_single_data, read_stopped, settled, write_block_run, write_block_sent, write_blocks_run,
    write_end_run, write_end_token, write_inner_run, write_single_data, write_single_second,
    write_single_sent, write_single_status, write_single_waited, write_wait_run,
};
use crate::types::{CardType, BLOCK_LEN};
use crate::pace::{
    lemma_acmd_paced, lemma_body_paced, lemma_command_paced, lemma_poll_paced,
    lemma_prepare_inner_paced, lemma_read_data_paced, lemma_write_block_paced,
    lemma_write_data_paced, poll_most, body_most, ACMD_MOST, COMMAND_MOST, PREPARE_MOST,
    READ_DATA_MOST, WRITE_BLOCK_MOST, WRITE_DATA_MOST, WRITE_WAIT_MOST,
};
use crate::poll::{poll_byte, poll_run, Until};
use crate::proto::{
    ACMD23, CMD0, CMD12, CMD13, CMD17, CMD18, CMD24, CMD25, CMD55, CMD9, DATA_START_BLOCK,
    STOP_TRAN_TOKEN, WRITE_MULTIPLE_TOKEN,
};
use crate::types::{AcquireOpts, Error};
use vstd::prelude::*;

verus! {

/// The payloads of `len` bytes that the reads among `sent` were answered
/// with, in order: the reply to the action at an index is the reply at
/// that index.
pub open spec fn received(sent: Seq<ActionSpec>, replies: Seq<ReplySpec>, len: nat) -> Seq<
    Seq<u8>,
>
    decreases sent.len(),
{
    if sent.len() == 0 {
        Seq::empty()
    } else {
        let before = received(sent.drop_last(), replies, len);
        let at = sent.len() - 1;
        if sent.last() == ActionSpec::Read(len) && at < replies.len() && replies[at] is Bytes {
            before.push(replies[at]->Bytes_0)
        } else {
            before
        }
    }
}

/// The payloads of `len` bytes that the writes among `sent` carry, in
/// order.
pub open spec fn written(sent: Seq<ActionSpec>, len: nat) -> Seq<Seq<u8>>
    decreases sent.len(),
{
    if sent.len() == 0 {
        Seq::empty()
    } else {
        let before = written(sent.drop_last(), len);
        match sent.last() {
            ActionSpec::Write(bytes) => if bytes.len() == len {
                before.push(bytes)
            } else {
                before
            },
            _ => before,
        }
    }
}

proof fn lemma_received_concat(
    a: Seq<ActionSpec>,
    b: Seq<ActionSpec>,
    replies: Seq<ReplySpec>,
    len: nat,
)
    requires
        a.len() <= replies.len() || b.len() == 0,
    ensures
        received(a + b, replies, len) == received(a, replies, len) + received(
            b,
            replies.skip(a.len() as int),
            len,
        ),
    decreases b.len(),
{
    if b.len() == 0 {
        assert(a + b =~= a);
        assert(received(a, replies, len) + Seq::<Seq<u8>>::empty() =~= received(a, replies, len));
    } else {
        assert((a + b).drop_last() =~= a + b.drop_last());
        lemma_received_concat(a, b.drop_last(), replies, len);
        let tail = replies.skip(a.len() as int);
        let at = b.len() - 1;
        if at < tail.len() {
            assert(tail[at] == replies[a.len() + at]);
        }
        let x = received(a, replies, len);
        let y = received(b.drop_last(), tail, len);
        if b.last() == ActionSpec::Read(len) && at < tail.len() && tail[at] is Bytes {
            assert((x + y).push(tail[at]->Bytes_0) =~= x + y.push(tail[at]->Bytes_0));
        }
    }
}

proof fn lemma_written_concat(a: Seq<ActionSpec>, b: Seq<ActionSpec>, len: nat)
    ensures
        written(a + b, len) == written(a, len) + written(b, len),
    decreases b.len(),
{
    if b.len() == 0 {
        assert(a + b =~= a);
        assert(written(a, len) + Seq::<Seq<u8>>::empty() =~= written(a, len));
    } else {
        assert((a + b).drop_last() =~= a + b.drop_last());
        lemma_written_concat(a, b.drop_last(), len);
        let x = written(a, len);
        let y = written(b.drop_last(), len);
        match b.last() {
            ActionSpec::Write(bytes) => {
                assert((x + y).push(bytes) =~= x + y.push(bytes));
            },
            _ => {},
        }
    }
}

proof fn lemma_one(action: ActionSpec, replies: Seq<ReplySpec>, len: nat)
    ensures
        received(seq![action], replies, len) == if action == ActionSpec::Read(len) && replies.len()
            > 0 && replies[0] is Bytes {
            seq![replies[0]->Bytes_0]
        } else {
            Seq::<Seq<u8>>::empty()
        },
        written(seq![action], len) == match action {
            ActionSpec::Write(bytes) => if bytes.len() == len {
                seq![bytes]
            } else {
                Seq::<Seq<u8>>::empty()
            },
            _ => Seq::<Seq<u8>>::empty(),
        },
{
    assert(seq![action].drop_last() =~= Seq::<ActionSpec>::empty());
    reveal_with_fuel(received, 2);
    reveal_with_fuel(written, 2);
    assert(received(seq![action], replies, len) =~= if action == ActionSpec::Read(len)
        && replies.len() > 0 && replies[0] is Bytes {
        seq![replies[0]->Bytes_0]
    } else {
        Seq::<Seq<u8>>::empty()
    });
    assert(written(seq![action], len) =~= match action {
        ActionSpec::Write(bytes) => if bytes.len() == len {
            seq![bytes]
        } else {
            Seq::<Seq<u8>>::empty()
        },
        _ => Seq::<Seq<u8>>::empty(),
    });
}

/// What a conversation that issues one action first receives and writes:
/// what that action does, and what the rest does.
proof fn lemma_ask<T>(action: ActionSpec, replies: Seq<ReplySpec>, next: Run<T>, len: nat)
    ensures
        ({
            let run = Run::ask(action, replies, next);
            &&& received(run.sent, replies, len) == received(seq![action], replies, len) + if
                replies.len() > 0 {
                received(next.sent, replies.drop_first(), len)
            } else {
                Seq::<Seq<u8>>::empty()
            }
            &&& written(run.sent, len) == written(seq![action], len) + if replies.len() > 0 {
                written(next.sent, len)
            } else {
                Seq::<Seq<u8>>::empty()
            }
        }),
{
    let run = Run::ask(action, replies, next);
    if replies.len() > 0 {
        assert(replies.skip(1) =~= replies.drop_first());
        lemma_received_concat(seq![action], next.sent, replies, len);
        lemma_written_concat(seq![action], next.sent, len);
    } else {
        let one = received(seq![action], replies, len);
        assert(one + Seq::<Seq<u8>>::empty() =~= one);
        let other = written(seq![action], len);
        assert(other + Seq::<Seq<u8>>::empty() =~= other);
    }
}

/// What two conversations, one after the other, receive and write: what
/// the first does, and what the second does on the replies that the first
/// leaves.
proof fn lemma_followed<T, U>(
    first: Run<T>,
    next: Run<U>,
    replies: Seq<ReplySpec>,
    most: nat,
    len: nat,
)
    requires
        first.paced(replies, most),
    ensures
        ({
            let run = first.followed_by(next);
            &&& received(run.sent, replies, len) == received(first.sent, replies, len) + if
                first.end is Some {
                received(next.sent, first.tail(), len)
            } else {
                Seq::<Seq<u8>>::empty()
            }
            &&& written(run.sent, len) == written(first.sent, len) + if first.end is Some {
                written(next.sent, len)
            } else {
                Seq::<Seq<u8>>::empty()
            }
        }),
{
    if first.end is Some {
        lemma_received_concat(first.sent, next.sent, replies, len);
        lemma_written_concat(first.sent, next.sent, len);
    } else {
        let one = received(first.sent, replies, len);
        assert(one + Seq::<Seq<u8>>::empty() =~= one);
        let other = written(first.sent, len);
        assert(other + Seq::<Seq<u8>>::empty() =~= other);
    }
}

/// Whether a conversation has nothing to do with payloads of `len` bytes:
/// it receives none and writes none.
pub open spec fn plain<T>(run: Run<T>, replies: Seq<ReplySpec>, len: nat) -> bool {
    &&& received(run.sent, replies, len) == Seq::<Seq<u8>>::empty()
    &&& written(run.sent, len) == Seq::<Seq<u8>>::empty()
}

proof fn lemma_done_plain<T>(value: T, replies: Seq<ReplySpec>, len: nat)
    ensures
        plain(Run::done(value, replies), replies, len),
{
}

proof fn lemma_ask_plain<T>(action: ActionSpec, replies: Seq<ReplySpec>, next: Run<T>, len: nat)
    requires
        action != ActionSpec::Read(len),
        action matches ActionSpec::Write(bytes) ==> bytes.len() != len,
        replies.len() > 0 ==> plain(next, replies.drop_first(), len),
    ensures
        plain(Run::ask(action, replies, next), replies, len),
{
    lemma_ask(action, replies, next, len);
    lemma_one(action, replies, len);
    let run = Run::ask(action, replies, next);
    assert(received(run.sent, replies, len) =~= Seq::<Seq<u8>>::empty());
    assert(written(run.sent, len) =~= Seq::<Seq<u8>>::empty());
}

proof fn lemma_followed_plain<T, U>(
    first: Run<T>,
    next: Run<U>,
    replies: Seq<ReplySpec>,
    most: nat,
    len: nat,
)
    requires
        first.paced(replies, most),
        plain(first, replies, len),
        first.end is Some ==> plain(next, first.tail(), len),
    ensures
        plain(first.followed_by(next), replies, len),
{
    lemma_followed(first, next, replies, most, len);
    let run = first.followed_by(next);
    assert(received(run.sent, replies, len) =~= Seq::<Seq<u8>>::empty());
    assert(written(run.sent, len) =~= Seq::<Seq<u8>>::empty());
}

proof fn lemma_poll_plain(
    until: Until,
    left: nat,
    timeout: Error,
    replies: Seq<ReplySpec>,
    len: nat,
)
    ensures
        plain(poll_run(until, left, timeout, replies), replies, len),
    decreases left,
{
    let rest = replies.drop_first();
    let after = poll_byte(until, left, timeout, replies.first(), rest);
    lemma_done_plain(Err::<u8, Error>(Error::Transport), rest, len);
    lemma_done_plain(Err::<u8, Error>(timeout), rest, len);
    match replies.first() {
        ReplySpec::Byte(byte) => {
            lemma_done_plain(Ok::<u8, Error>(byte), rest, len);
            if !until.hit(byte) && left > 0 {
                lemma_poll_plain(until, (left - 1) as nat, timeout, rest.drop_first(), len);
                lemma_ask_plain(
                    ActionSpec::DelayUs(TICK_US),
                    rest,
                    poll_run(until, (left - 1) as nat, timeout, rest.drop_first()),
                    len,
                );
            }
        },
        _ => {},
    }
    lemma_ask_plain(ActionSpec::Transfer(0xFF), replies, after, len);
}

proof fn lemma_command_plain(cmd: u8, arg: u32, replies: Seq<ReplySpec>, len: nat)
    requires
        len != 6,
    ensures
        plain(command_run(cmd, arg, replies), replies, len),
{
    reveal(command_run);
    assert(frame(cmd, arg).len() == 6);
    if cmd != CMD0 && cmd != CMD12 {
        let busy = poll_run(
            Until::Idle,
            crate::delay::DEFAULT_COMMAND_RETRIES as nat,
            Error::TimeoutWaitNotBusy,
            replies,
        );
        lemma_poll_paced(
            Until::Idle,
            crate::delay::DEFAULT_COMMAND_RETRIES as nat,
            Error::TimeoutWaitNotBusy,
            replies,
        );
        lemma_poll_plain(
            Until::Idle,
            crate::delay::DEFAULT_COMMAND_RETRIES as nat,
            Error::TimeoutWaitNotBusy,
            replies,
            len,
        );
        if busy.end is Some {
            lemma_done_plain(Err::<u8, Error>(busy.value()->Err_0), busy.tail(), len);
            lemma_command_send_plain(cmd, arg, busy.tail(), len);
        }
        lemma_followed_plain(
            busy,
            command_ready(cmd, arg, busy.value(), busy.tail()),
            replies,
            poll_most(crate::delay::DEFAULT_COMMAND_RETRIES as nat),
            len,
        );
    } else {
        lemma_command_send_plain(cmd, arg, replies, len);
    }
}

proof fn lemma_command_send_plain(cmd: u8, arg: u32, replies: Seq<ReplySpec>, len: nat)
    requires
        len != 6,
    ensures
        plain(command_send(cmd, arg, replies), replies, len),
{
    assert(frame(cmd, arg).len() == 6);
    let rest = replies.drop_first();
    let sent = command_sent(cmd, replies.first(), rest);
    lemma_done_plain(Err::<u8, Error>(Error::Transport), rest, len);
    lemma_done_plain(Err::<u8, Error>(Error::Transport), rest.drop_first(), len);
    lemma_poll_plain(
        Until::Response,
        crate::delay::DEFAULT_COMMAND_RETRIES as nat,
        Error::TimeoutCommand(cmd),
        rest,
        len,
    );
    lemma_poll_plain(
        Until::Response,
        crate::delay::DEFAULT_COMMAND_RETRIES as nat,
        Error::TimeoutCommand(cmd),
        rest.drop_first(),
        len,
    );
    lemma_ask_plain(
        ActionSpec::Transfer(0xFF),
        rest,
        command_stuffed(cmd, rest.first(), rest.drop_first()),
        len,
    );
    lemma_ask_plain(ActionSpec::Write(frame(cmd, arg)), replies, sent, len);
}

proof fn lemma_acmd_plain(cmd: u8, arg: u32, replies: Seq<ReplySpec>, len: nat)
    requires
        len != 6,
    ensures
        plain(acmd_run(cmd, arg, replies), replies, len),
{
    reveal(acmd_run);
    let prefix = command_run(CMD55, 0, replies);
    lemma_command_paced(CMD55, 0, replies);
    lemma_command_plain(CMD55, 0, replies, len);
    if prefix.end is Some {
        lemma_done_plain(Err::<u8, Error>(prefix.value()->Err_0), prefix.tail(), len);
        lemma_command_plain(cmd, arg, prefix.tail(), len);
    }
    lemma_followed_plain(
        prefix,
        acmd_main(cmd, arg, prefix.value(), prefix.tail()),
        replies,
        crate::pace::COMMAND_MOST as nat,
        len,
    );
}

/// What the reading of a data packet receives: nothing is written; the
/// payload, if the packet is accepted, is the one payload of its length
/// that was received.
pub proof fn lemma_read_data_wire(n: nat, use_crc: bool, replies: Seq<ReplySpec>, len: nat)
    requires
        n != 2,
    ensures
        ({
            let run = read_data_run(n, use_crc, replies);
            &&& written(run.sent, len) == Seq::<Seq<u8>>::empty()
            &&& len != n && len != 2 ==> plain(run, replies, len)
            &&& run.end matches Some((Ok(payload), _)) ==> received(run.sent, replies, n) == seq![
                payload,
            ]
        }),
{
    reveal(read_data_run);
    let budget = crate::delay::DEFAULT_READ_RETRIES as nat;
    let token = poll_run(Until::Token, budget, Error::TimeoutReadBuffer, replies);
    lemma_poll_paced(Until::Token, budget, Error::TimeoutReadBuffer, replies);
    lemma_poll_plain(Until::Token, budget, Error::TimeoutReadBuffer, replies, len);
    lemma_poll_plain(Until::Token, budget, Error::TimeoutReadBuffer, replies, n);
    let next = read_data_token(n, use_crc, token.value(), token.tail());
    lemma_followed(token, next, replies, poll_most(budget), len);
    lemma_followed(token, next, replies, poll_most(budget), n);
    let run = token.followed_by(next);
    if token.end is Some {
        let r0 = token.tail();
        let r1 = r0.drop_first();
        let r2 = r1.drop_first();
        let payload = read_data_payload(n, use_crc, r0.first(), r1);
        lemma_ask(ActionSpec::Read(n), r0, payload, len);
        lemma_ask(ActionSpec::Read(n), r0, payload, n);
        lemma_one(ActionSpec::Read(n), r0, len);
        lemma_one(ActionSpec::Read(n), r0, n);
        if r0.len() > 0 && r0.first() is Bytes {
            let bytes = r0.first()->Bytes_0;
            let checksum = read_data_checksum(use_crc, bytes, r1.first(), r2);
            lemma_ask(ActionSpec::Read(2), r1, checksum, len);
            lemma_ask(ActionSpec::Read(2), r1, checksum, n);
            lemma_one(ActionSpec::Read(2), r1, len);
            lemma_one(ActionSpec::Read(2), r1, n);
            assert(seq![bytes] + (Seq::<Seq<u8>>::empty() + Seq::<Seq<u8>>::empty()) =~= seq![
                bytes,
            ]);
        }
    }
    assert(written(run.sent, len) =~= Seq::<Seq<u8>>::empty());
    if len != n && len != 2 {
        assert(received(run.sent, replies, len) =~= Seq::<Seq<u8>>::empty());
    }
    if run.end is Some && run.value() is Ok {
        assert(received(run.sent, replies, n) =~= seq![run.value()->Ok_0]);
    }
}

/// What the writing of a data packet writes: nothing is received; the
/// payload, once the packet has been sent, is the one payload of its length
/// that was written.
pub proof fn lemma_write_data_wire(
    token: u8,
    payload: Seq<u8>,
    use_crc: bool,
    replies: Seq<ReplySpec>,
    len: nat,
)
    requires
        payload.len() != 2,
    ensures
        ({
            let run = write_data_run(token, payload, use_crc, replies);
            &&& received(run.sent, replies, len) == Seq::<Seq<u8>>::empty()
            &&& len != payload.len() && len != 2 ==> plain(run, replies, len)
            &&& run.end matches Some((Ok(_), _)) ==> written(run.sent, payload.len()) == seq![
                payload,
            ]
        }),
{
    reveal(write_data_run);
    let n = payload.len();
    let trailer = crc_trailer(use_crc, payload);
    assert(trailer.len() == 2);
    let r1 = replies.drop_first();
    let r2 = r1.drop_first();
    let r3 = r2.drop_first();
    let r4 = r3.drop_first();
    let s3 = write_data_status(r3.first(), r4);
    let s2 = write_data_trailer(r2.first(), r3);
    let s1 = write_data_payload(trailer, r1.first(), r2);
    let s0 = write_data_token(payload, use_crc, replies.first(), r1);
    lemma_ask(ActionSpec::Transfer(0xFF), r3, s3, len);
    lemma_ask(ActionSpec::Transfer(0xFF), r3, s3, n);
    lemma_ask(ActionSpec::Write(trailer), r2, s2, len);
    lemma_ask(ActionSpec::Write(trailer), r2, s2, n);
    lemma_ask(ActionSpec::Write(payload), r1, s1, len);
    lemma_ask(ActionSpec::Write(payload), r1, s1, n);
    lemma_ask(ActionSpec::Transfer(token), replies, s0, len);
    lemma_ask(ActionSpec::Transfer(token), replies, s0, n);
    lemma_one(ActionSpec::Transfer(0xFF), r3, len);
    lemma_one(ActionSpec::Transfer(0xFF), r3, n);
    lemma_one(ActionSpec::Write(trailer), r2, len);
    lemma_one(ActionSpec::Write(trailer), r2, n);
    lemma_one(ActionSpec::Write(payload), r1, len);
    lemma_one(ActionSpec::Write(payload), r1, n);
    lemma_one(ActionSpec::Transfer(token), replies, len);
    lemma_one(ActionSpec::Transfer(token), replies, n);
    let run = write_data_run(token, payload, use_crc, replies);
    let none = Seq::<Seq<u8>>::empty();
    assert(none + none =~= none);
    assert(none + (none + none) =~= none);
    assert(received(run.sent, replies, len) =~= none);
    if len != n && len != 2 {
        assert(written(run.sent, len) =~= none);
    }
    if run.end is Some && run.value() is Ok {
        assert(none + (seq![payload] + (none + (none + none))) =~= seq![payload]);
        assert(written(run.sent, n) =~= seq![payload]);
    }
}

proof fn lemma_read_blocks_wire(
    use_crc: bool,
    left: nat,
    got: Seq<Seq<u8>>,
    replies: Seq<ReplySpec>,
)
    ensures
        ({
            let run = read_blocks_run(use_crc, left, got, replies);
            &&& written(run.sent, BLOCK_LEN as nat) == Seq::<Seq<u8>>::empty()
            &&& run.end matches Some((Ok(blocks), _)) ==> blocks == got + received(
                run.sent,
                replies,
                BLOCK_LEN as nat,
            )
        }),
    decreases left,
{
    let len = BLOCK_LEN as nat;
    let none = Seq::<Seq<u8>>::empty();
    let run = read_blocks_run(use_crc, left, got, replies);
    assert(none + none =~= none);
    if left == 0 {
        let sent = command_run(CMD12, 0, replies);
        let next = match sent.value() {
            Err(e) => Run::done(Err(e), sent.tail()),
            Ok(_) => Run::done(Ok(got), sent.tail()),
        };
        assert(run == read_stopped(got, sent));
        assert(read_stopped(got, sent) == sent.followed_by(next));
        lemma_command_paced(CMD12, 0, replies);
        lemma_command_plain(CMD12, 0, replies, len);
        lemma_followed(sent, next, replies, COMMAND_MOST as nat, len);
        assert(got + none =~= got);
    } else {
        let data = read_data_run(len, use_crc, replies);
        let next = match data.value() {
            Err(e) => Run::done(Err(e), data.tail()),
            Ok(payload) => read_blocks_run(
                use_crc,
                (left - 1) as nat,
                got.push(payload),
                data.tail(),
            ),
        };
        assert(run == read_block(use_crc, left, got, data));
        assert(read_block(use_crc, left, got, data) == data.followed_by(next));
        lemma_read_data_paced(len, use_crc, replies);
        lemma_read_data_wire(len, use_crc, replies, len);
        lemma_followed(data, next, replies, READ_DATA_MOST as nat, len);
        if data.end is Some && data.value() is Ok {
            let payload = data.value()->Ok_0;
            lemma_read_blocks_wire(use_crc, (left - 1) as nat, got.push(payload), data.tail());
            let rest = received(next.sent, data.tail(), len);
            assert(got + (seq![payload] + rest) =~= got.push(payload) + rest);
        }
    }
}

/// What a read of blocks receives: nothing is written, and the blocks that
/// it yields are the payloads received, in order.
pub proof fn lemma_read_inner_wire(use_crc: bool, count: nat, arg: u32, replies: Seq<ReplySpec>)
    ensures
        ({
            let run = read_inner_run(use_crc, count, arg, replies);
            &&& written(run.sent, BLOCK_LEN as nat) == Seq::<Seq<u8>>::empty()
            &&& run.end matches Some((Ok(blocks), _)) ==> blocks == received(
                run.sent,
                replies,
                BLOCK_LEN as nat,
            )
        }),
{
    reveal(read_inner_run);
    let len = BLOCK_LEN as nat;
    let none = Seq::<Seq<u8>>::empty();
    assert(none + none =~= none);
    if count == 1 {
        let sent = command_run(CMD17, arg, replies);
        lemma_command_paced(CMD17, arg, replies);
        lemma_command_plain(CMD17, arg, replies, len);
        let data = read_data_run(len, use_crc, sent.tail());
        let last = match data.value() {
            Err(e) => Run::done(Err(e), data.tail()),
            Ok(payload) => Run::done(Ok(seq![payload]), data.tail()),
        };
        let next = match sent.value() {
            Err(e) => Run::done(Err(e), sent.tail()),
            Ok(_) => read_single_data(data),
        };
        lemma_followed(sent, next, replies, COMMAND_MOST as nat, len);
        if sent.end is Some {
            lemma_read_data_paced(len, use_crc, sent.tail());
            lemma_read_data_wire(len, use_crc, sent.tail(), len);
            lemma_followed(data, last, sent.tail(), READ_DATA_MOST as nat, len);
            if data.end is Some && data.value() is Ok {
                let payload = data.value()->Ok_0;
                assert(none + (seq![payload] + none) =~= seq![payload]);
            }
        }
    } else {
        let sent = command_run(CMD18, arg, replies);
        lemma_command_paced(CMD18, arg, replies);
        lemma_command_plain(CMD18, arg, replies, len);
        let next = match sent.value() {
            Err(e) => Run::done(Err(e), sent.tail()),
            Ok(_) => read_blocks_run(use_crc, count, Seq::empty(), sent.tail()),
        };
        lemma_followed(sent, next, replies, COMMAND_MOST as nat, len);
        if sent.end is Some {
            lemma_read_blocks_wire(use_crc, count, Seq::empty(), sent.tail());
            let rest = received(next.sent, sent.tail(), len);
            assert(none + rest =~= rest);
        }
    }
}

/// What a transaction receives and writes is what its body does: driving
/// chip-select carries no payload.
pub proof fn lemma_transaction_wire(
    plan: PlanSpec,
    use_crc: bool,
    replies: Seq<ReplySpec>,
    len: nat,
)
    ensures
        ({
            let run = transaction_run(plan, use_crc, replies);
            let inside = if plan.selects() {
                replies.drop_first()
            } else {
                replies
            };
            let body = body_run(plan, use_crc, inside);
            run.end is Some ==> if !plan.selects() || replies.first() == ReplySpec::Done {
                received(run.sent, replies, len) == received(body.sent, inside, len) && written(
                    run.sent,
                    len,
                ) == written(body.sent, len)
            } else {
                plain(run, replies, len)
            }
        }),
{
    reveal(transaction_run);
    let run = transaction_run(plan, use_crc, replies);
    let inside = if plan.selects() {
        replies.drop_first()
    } else {
        replies
    };
    let body = body_run(plan, use_crc, inside);
    lemma_body_paced(plan, use_crc, inside);
    let none = Seq::<Seq<u8>>::empty();
    assert(none + none =~= none);
    if run.end is Some {
        let end = if plan.releases_always() || body.value() is Err {
            release(body.value(), body.tail())
        } else {
            Run::done(body.value(), body.tail())
        };
        let closed = closing(plan.releases_always(), body);
        assert(closed == body.followed_by(end));
        lemma_followed(body, end, inside, body_most(plan), len);
        if body.end is Some {
            let rest = body.tail();
            lemma_done_plain(body.value(), rest.drop_first(), len);
            lemma_done_plain(
                Err::<OutputSpec, Error>(Error::GpioError),
                rest.drop_first(),
                len,
            );
            lemma_ask_plain(
                ActionSpec::CsHigh,
                rest,
                released(body.value(), rest.first(), rest.drop_first()),
                len,
            );
            lemma_done_plain(body.value(), rest, len);
            let got = received(body.sent, inside, len);
            assert(got + none =~= got);
            let put = written(body.sent, len);
            assert(put + none =~= put);
        }
        if plan.selects() {
            lemma_done_plain(Err::<OutputSpec, Error>(Error::GpioError), inside, len);
            lemma_ask(
                ActionSpec::CsLow,
                replies,
                transaction_selected(plan, use_crc, replies.first(), inside),
                len,
            );
            lemma_one(ActionSpec::CsLow, replies, len);
            let got = received(closed.sent, inside, len);
            assert(none + got =~= got);
            let put = written(closed.sent, len);
            assert(none + put =~= put);
        }
    }
}

/// A read hands back what came off the wire. The blocks that a read on a
/// card that is known yields are the payloads of 512 bytes that its reads
/// were answered with: all of them, in order, unchanged. A read writes no
/// block.
pub proof fn law_read_hands_back_what_arrived(
    card: CardType,
    opts: AcquireOpts,
    count: nat,
    start: u32,
    replies: Seq<ReplySpec>,
)
    ensures
        ({
            let run = lazy_run(Some(card), opts, RequestSpec::Read { count, start }, replies);
            &&& run.end is Some ==> written(run.sent, BLOCK_LEN as nat) == Seq::<Seq<u8>>::empty()
            &&& run.end matches Some(((Ok(output), _), _)) ==> output == OutputSpec::Blocks(
                received(run.sent, replies, BLOCK_LEN as nat),
            )
        }),
{
    reveal(request_run);
    reveal(transaction_run);
    let plan = PlanSpec::Read { count, arg: wire_address(card, start) };
    lemma_transaction_wire(plan, opts.use_crc, replies, BLOCK_LEN as nat);
    lemma_read_inner_wire(opts.use_crc, count, wire_address(card, start), replies.drop_first());
}

/// What the register says is what the card sent. The answer to a question
/// to the register of a card that is known is read off the one payload of
/// sixteen bytes that the card sent, and off nothing else: two
/// conversations in which the card sends the same register give the same
/// answer.
pub proof fn law_answer_is_read_off_the_register(
    card: CardType,
    opts: AcquireOpts,
    query: Query,
    replies: Seq<ReplySpec>,
)
    ensures
        ({
            let run = lazy_run(Some(card), opts, RequestSpec::Query(query), replies);
            run.end matches Some(((Ok(output), known), _)) ==> {
                let register = received(run.sent, replies, CSD_LEN as nat);
                &&& register.len() == 1
                &&& output == answer_of(card, query, register[0])
                &&& known == Some(card)
            }
        }),
{
    reveal(request_run);
    reveal(transaction_run);
    reveal(read_csd_run);
    let len = CSD_LEN as nat;
    let plan = PlanSpec::Query { card: Some(card), query };
    lemma_transaction_wire(plan, opts.use_crc, replies, len);
    let inside = replies.drop_first();
    let sent = command_run(CMD9, 0, inside);
    lemma_command_paced(CMD9, 0, inside);
    lemma_command_plain(CMD9, 0, inside, len);
    let next = match sent.value() {
        Err(e) => Run::done(Err(e), sent.tail()),
        Ok(r1) => if r1 != 0 {
            Run::done(Err(Error::RegisterReadError), sent.tail())
        } else {
            read_data_run(len, opts.use_crc, sent.tail())
        },
    };
    lemma_followed(sent, next, inside, COMMAND_MOST as nat, len);
    if sent.end is Some {
        lemma_read_data_wire(len, opts.use_crc, sent.tail(), len);
        let got = received(next.sent, sent.tail(), len);
        assert(Seq::<Seq<u8>>::empty() + got =~= got);
    }
}

/// The register is asked the same thing twice with the same result. Two
/// questions of one kind to a card that is known, whatever was done in
/// between, get the same answer if the card sends the same register: the
/// answer depends on what the card reports, not on earlier operations.
pub proof fn law_answers_are_stable(
    card: CardType,
    opts: AcquireOpts,
    query: Query,
    once: Seq<ReplySpec>,
    again: Seq<ReplySpec>,
)
    requires
        lazy_run(
            Some(card),
            opts,
            RequestSpec::Query(query),
            once,
        ).end matches Some(((Ok(_), _), _)),
        lazy_run(
            Some(card),
            opts,
            RequestSpec::Query(query),
            again,
        ).end matches Some(((Ok(_), _), _)),
        received(
            lazy_run(Some(card), opts, RequestSpec::Query(query), once).sent,
            once,
            CSD_LEN as nat,
        ) == received(
            lazy_run(Some(card), opts, RequestSpec::Query(query), again).sent,
            again,
            CSD_LEN as nat,
        ),
    ensures
        lazy_run(Some(card), opts, RequestSpec::Query(query), once).value() == lazy_run(
            Some(card),
            opts,
            RequestSpec::Query(query),
            again,
        ).value(),
{
    law_answer_is_read_off_the_register(card, opts, query, once);
    law_answer_is_read_off_the_register(card, opts, query, again);
}

proof fn lemma_wait_plain(replies: Seq<ReplySpec>, len: nat)
    ensures
        plain(write_wait_run(replies), replies, len),
        write_wait_run(replies).paced(replies, WRITE_WAIT_MOST as nat),
{
    let budget = crate::delay::DEFAULT_WRITE_RETRIES as nat;
    lemma_poll_plain(Until::Idle, budget, Error::TimeoutWaitNotBusy, replies, len);
    lemma_poll_paced(Until::Idle, budget, Error::TimeoutWaitNotBusy, replies);
}

proof fn lemma_settled_plain(sent: Run<Result<u8, Error>>, replies: Seq<ReplySpec>, len: nat)
    requires
        sent.paced(replies, COMMAND_MOST as nat),
        plain(sent, replies, len),
    ensures
        plain(settled(sent), replies, len),
{
    let result = match sent.value() {
        Ok(_) => Ok::<(), Error>(()),
        Err(e) => Err::<(), Error>(e),
    };
    lemma_done_plain(result, sent.tail(), len);
    lemma_followed_plain(
        sent,
        Run::done(result, sent.tail()),
        replies,
        COMMAND_MOST as nat,
        len,
    );
}

proof fn lemma_prepare_plain(arg: u32, count: u32, replies: Seq<ReplySpec>, len: nat)
    requires
        len != 6,
    ensures
        plain(prepare_inner_run(arg, count, replies), replies, len),
{
    reveal(prepare_inner_run);
    let sent = acmd_run(ACMD23, count, replies);
    lemma_acmd_paced(ACMD23, count, replies);
    lemma_acmd_plain(ACMD23, count, replies, len);
    if sent.end is Some {
        let busy = write_wait_run(sent.tail());
        lemma_wait_plain(sent.tail(), len);
        lemma_done_plain(Err::<(), Error>(sent.value()->Err_0), sent.tail(), len);
        if busy.end is Some {
            let open = command_run(CMD25, arg, busy.tail());
            lemma_command_paced(CMD25, arg, busy.tail());
            lemma_command_plain(CMD25, arg, busy.tail(), len);
            lemma_settled_plain(open, busy.tail(), len);
            lemma_done_plain(Err::<(), Error>(busy.value()->Err_0), busy.tail(), len);
        }
        lemma_followed_plain(
            busy,
            match busy.value() {
                Err(e) => Run::done(Err(e), busy.tail()),
                Ok(_) => settled(command_run(CMD25, arg, busy.tail())),
            },
            sent.tail(),
            WRITE_WAIT_MOST as nat,
            len,
        );
    }
    lemma_followed_plain(
        sent,
        match sent.value() {
            Err(e) => Run::done(Err(e), sent.tail()),
            Ok(_) => prepare_waited(arg, write_wait_run(sent.tail())),
        },
        replies,
        ACMD_MOST as nat,
        len,
    );
}

proof fn lemma_write_end_plain(replies: Seq<ReplySpec>, len: nat)
    ensures
        plain(write_end_run(replies), replies, len),
{
    reveal(write_end_run);
    let busy = write_wait_run(replies);
    lemma_wait_plain(replies, len);
    if busy.end is Some {
        let rest = busy.tail();
        lemma_done_plain(Err::<(), Error>(busy.value()->Err_0), rest, len);
        lemma_done_plain(Err::<(), Error>(Error::Transport), rest.drop_first(), len);
        lemma_done_plain(Ok::<(), Error>(()), rest.drop_first(), len);
        lemma_ask_plain(
            ActionSpec::Transfer(STOP_TRAN_TOKEN),
            rest,
            write_end_token(rest.first(), rest.drop_first()),
            len,
        );
    }
    lemma_followed_plain(
        busy,
        match busy.value() {
            Err(e) => Run::done(Err(e), busy.tail()),
            Ok(_) => Run::ask(
                ActionSpec::Transfer(STOP_TRAN_TOKEN),
                busy.tail(),
                write_end_token(busy.tail().first(), busy.tail().drop_first()),
            ),
        },
        replies,
        WRITE_WAIT_MOST as nat,
        len,
    );
}

/// What one block of a multiple-block write puts on the wire: itself, and
/// no other payload of its length.
pub proof fn lemma_write_block_wire(block: Seq<u8>, use_crc: bool, replies: Seq<ReplySpec>)
    requires
        block.len() != 2,
    ensures
        ({
            let run = write_block_run(block, use_crc, replies);
            &&& received(run.sent, replies, block.len()) == Seq::<Seq<u8>>::empty()
            &&& run.end matches Some((Ok(_), _)) ==> written(run.sent, block.len()) == seq![
                block,
            ]
        }),
{
    reveal(write_block_run);
    let len = block.len();
    let none = Seq::<Seq<u8>>::empty();
    let busy = write_wait_run(replies);
    lemma_wait_plain(replies, len);
    let next = match busy.value() {
        Err(e) => Run::done(Err(e), busy.tail()),
        Ok(_) => write_data_run(WRITE_MULTIPLE_TOKEN, block, use_crc, busy.tail()),
    };
    lemma_followed(busy, next, replies, WRITE_WAIT_MOST as nat, len);
    assert(none + none =~= none);
    if busy.end is Some {
        lemma_write_data_wire(WRITE_MULTIPLE_TOKEN, block, use_crc, busy.tail(), len);
        assert(none + seq![block] =~= seq![block]);
    }
}

proof fn lemma_write_blocks_wire(
    use_crc: bool,
    blocks: Seq<Seq<u8>>,
    from: nat,
    replies: Seq<ReplySpec>,
)
    requires
        from <= blocks.len(),
        forall|i: int| 0 <= i < blocks.len() ==> (#[trigger] blocks[i]).len() == BLOCK_LEN,
    ensures
        ({
            let run = write_blocks_run(use_crc, blocks, from, replies);
            &&& received(run.sent, replies, BLOCK_LEN as nat) == Seq::<Seq<u8>>::empty()
            &&& run.end matches Some((Ok(_), _)) ==> written(run.sent, BLOCK_LEN as nat)
                == blocks.skip(from as int)
        }),
    decreases blocks.len() - from,
{
    let len = BLOCK_LEN as nat;
    let none = Seq::<Seq<u8>>::empty();
    assert(none + none =~= none);
    let run = write_blocks_run(use_crc, blocks, from, replies);
    if from >= blocks.len() {
        lemma_write_end_plain(replies, len);
        assert(blocks.skip(from as int) =~= none);
    } else {
        let block = blocks[from as int];
        let sent = write_block_run(block, use_crc, replies);
        let next = match sent.value() {
            Err(e) => Run::done(Err(e), sent.tail()),
            Ok(_) => write_blocks_run(use_crc, blocks, from + 1, sent.tail()),
        };
        assert(run == write_block_sent(use_crc, blocks, from, sent));
        assert(write_block_sent(use_crc, blocks, from, sent) == sent.followed_by(next));
        lemma_write_block_paced(block, use_crc, replies);
        lemma_write_block_wire(block, use_crc, replies);
        lemma_followed(sent, next, replies, WRITE_BLOCK_MOST as nat, len);
        if sent.end is Some && sent.value() is Ok {
            lemma_write_blocks_wire(use_crc, blocks, from + 1, sent.tail());
            assert(seq![block] + blocks.skip((from + 1) as int) =~= blocks.skip(from as int));
        }
    }
}

proof fn lemma_write_single_wire(
    use_crc: bool,
    block: Seq<u8>,
    arg: u32,
    replies: Seq<ReplySpec>,
)
    requires
        block.len() == BLOCK_LEN,
    ensures
        ({
            let run = write_single_sent(use_crc, block, command_run(CMD24, arg, replies));
            &&& received(run.sent, replies, BLOCK_LEN as nat) == Seq::<Seq<u8>>::empty()
            &&& run.end matches Some((Ok(_), _)) ==> written(run.sent, BLOCK_LEN as nat) == seq![
                block,
            ]
        }),
{
    let len = BLOCK_LEN as nat;
    let none = Seq::<Seq<u8>>::empty();
    assert(none + none =~= none);
    let sent = command_run(CMD24, arg, replies);
    lemma_command_paced(CMD24, arg, replies);
    lemma_command_plain(CMD24, arg, replies, len);
    let data = write_data_run(DATA_START_BLOCK, block, use_crc, sent.tail());
    let after_sent = match sent.value() {
        Err(e) => Run::done(Err(e), sent.tail()),
        Ok(_) => write_single_data(data),
    };
    lemma_followed(sent, after_sent, replies, COMMAND_MOST as nat, len);
    if sent.end is Some && sent.value() is Ok {
        lemma_write_data_paced(DATA_START_BLOCK, block, use_crc, sent.tail());
        lemma_write_data_wire(DATA_START_BLOCK, block, use_crc, sent.tail(), len);
        let busy = write_wait_run(data.tail());
        let after_data = match data.value() {
            Err(e) => Run::done(Err(e), data.tail()),
            Ok(_) => write_single_waited(busy),
        };
        lemma_followed(data, after_data, sent.tail(), WRITE_DATA_MOST as nat, len);
        if data.end is Some && data.value() is Ok {
            lemma_wait_plain(data.tail(), len);
            let status = command_run(CMD13, 0, busy.tail());
            let after_busy = match busy.value() {
                Err(e) => Run::done(Err(e), busy.tail()),
                Ok(_) => write_single_status(status),
            };
            if busy.end is Some {
                lemma_done_plain(Err::<(), Error>(busy.value()->Err_0), busy.tail(), len);
                lemma_command_paced(CMD13, 0, busy.tail());
                lemma_command_plain(CMD13, 0, busy.tail(), len);
                if status.end is Some {
                    let rest = status.tail();
                    lemma_done_plain(Err::<(), Error>(status.value()->Err_0), rest, len);
                    lemma_done_plain(Err::<(), Error>(Error::WriteError), rest, len);
                    lemma_done_plain(
                        Err::<(), Error>(Error::WriteError),
                        rest.drop_first(),
                        len,
                    );
                    lemma_done_plain(Err::<(), Error>(Error::Transport), rest.drop_first(), len);
                    lemma_done_plain(Ok::<(), Error>(()), rest.drop_first(), len);
                    lemma_ask_plain(
                        ActionSpec::Transfer(0xFF),
                        rest,
                        write_single_second(rest.first(), rest.drop_first()),
                        len,
                    );
                }
                lemma_followed_plain(
                    status,
                    match status.value() {
                        Err(e) => Run::done(Err(e), status.tail()),
                        Ok(r1) => if r1 != 0 {
                            Run::done(Err(Error::WriteError), status.tail())
                        } else {
                            Run::ask(
                                ActionSpec::Transfer(0xFF),
                                status.tail(),
                                write_single_second(
                                    status.tail().first(),
                                    status.tail().drop_first(),
                                ),
                            )
                        },
                    },
                    busy.tail(),
                    COMMAND_MOST as nat,
                    len,
                );
            }
            lemma_followed_plain(busy, after_busy, data.tail(), WRITE_WAIT_MOST as nat, len);
            assert(none + (seq![block] + none) =~= seq![block]);
        }
    }
}

/// What a write of blocks puts on the wire: the blocks, in order and
/// unchanged, and no other payload of their length. Nothing of that length
/// is received.
pub proof fn lemma_write_inner_wire(
    use_crc: bool,
    blocks: Seq<Seq<u8>>,
    arg: u32,
    replies: Seq<ReplySpec>,
)
    requires
        forall|i: int| 0 <= i < blocks.len() ==> (#[trigger] blocks[i]).len() == BLOCK_LEN,
    ensures
        ({
            let run = write_inner_run(use_crc, blocks, arg, replies);
            &&& received(run.sent, replies, BLOCK_LEN as nat) == Seq::<Seq<u8>>::empty()
            &&& run.end matches Some((Ok(_), _)) ==> written(run.sent, BLOCK_LEN as nat) == blocks
        }),
{
    reveal(write_inner_run);
    let len = BLOCK_LEN as nat;
    let none = Seq::<Seq<u8>>::empty();
    assert(none + none =~= none);
    if blocks.len() == 1 {
        lemma_write_single_wire(use_crc, blocks[0], arg, replies);
        assert(seq![blocks[0]] =~= blocks);
    } else {
        let opened = prepare_inner_run(arg, blocks.len() as u32, replies);
        lemma_prepare_inner_paced(arg, blocks.len() as u32, replies);
        lemma_prepare_plain(arg, blocks.len() as u32, replies, len);
        let next = match opened.value() {
            Err(e) => Run::done(Err(e), opened.tail()),
            Ok(_) => write_blocks_run(use_crc, blocks, 0, opened.tail()),
        };
        lemma_followed(opened, next, replies, PREPARE_MOST as nat, len);
        if opened.end is Some {
            lemma_write_blocks_wire(use_crc, blocks, 0, opened.tail());
            assert(blocks.skip(0) =~= blocks);
            assert(none + blocks =~= blocks);
        }
    }
}

/// A write puts the blocks on the wire. What a write on a card that is
/// known has written when it has ended well, payload of 512 bytes by
/// payload, is the blocks that it was given: all of them, in order,
/// unchanged, and nothing else of that length, whether they went one by one
/// or as one multiple-block write. A write receives no block.
pub proof fn law_write_puts_the_blocks_on_the_wire(
    card: CardType,
    opts: AcquireOpts,
    blocks: Seq<Seq<u8>>,
    start: u32,
    replies: Seq<ReplySpec>,
)
    requires
        forall|i: int| 0 <= i < blocks.len() ==> (#[trigger] blocks[i]).len() == BLOCK_LEN,
    ensures
        ({
            let run = lazy_run(Some(card), opts, RequestSpec::Write { blocks, start }, replies);
            &&& run.end is Some ==> received(run.sent, replies, BLOCK_LEN as nat) == Seq::<
                Seq<u8>,
            >::empty()
            &&& run.end matches Some(((Ok(_), _), _)) ==> written(run.sent, BLOCK_LEN as nat)
                == blocks
        }),
{
    reveal(request_run);
    reveal(transaction_run);
    let plan = PlanSpec::Write { blocks, arg: wire_address(card, start) };
    lemma_transaction_wire(plan, opts.use_crc, replies, BLOCK_LEN as nat);
    lemma_write_inner_wire(opts.use_crc, blocks, wire_address(card, start), replies.drop_first());
}

/// What is written is what is read back, as far as the driver goes. If a
/// write of `blocks` ends well, and a read of as many blocks ends well on a
/// bus that answers its reads with the payloads that the write put on the
/// wire, the read yields `blocks`. That the card answers so is the card's
/// part.
pub proof fn law_read_after_write(
    card: CardType,
    opts: AcquireOpts,
    blocks: Seq<Seq<u8>>,
    start: u32,
    writing: Seq<ReplySpec>,
    reading: Seq<ReplySpec>,
)
    requires
        forall|i: int| 0 <= i < blocks.len() ==> (#[trigger] blocks[i]).len() == BLOCK_LEN,
        lazy_run(
            Some(card),
            opts,
            RequestSpec::Write { blocks, start },
            writing,
        ).end matches Some(((Ok(_), _), _)),
        lazy_run(
            Some(card),
            opts,
            RequestSpec::Read { count: blocks.len(), start },
            reading,
        ).end matches Some(((Ok(_), _), _)),
        received(
            lazy_run(
                Some(card),
                opts,
                RequestSpec::Read { count: blocks.len(), start },
                reading,
            ).sent,
            reading,
            BLOCK_LEN as nat,
        ) == written(
            lazy_run(Some(card), opts, RequestSpec::Write { blocks, start }, writing).sent,
            BLOCK_LEN as nat,
        ),
    ensures
        lazy_run(
            Some(card),
            opts,
            RequestSpec::Read { count: blocks.len(), start },
            reading,
        ).value().0 == Ok::<OutputSpec, Error>(OutputSpec::Blocks(blocks)),
{
    law_write_puts_the_blocks_on_the_wire(card, opts, blocks, start, writing);
    law_read_hands_back_what_arrived(card, opts, blocks.len(), start, reading);
}

/// The number of bytes in the frame of a command. A payload of this length
/// that is written is a frame: blocks, registers and checksums have other
/// lengths.
pub const FRAME_LEN: usize = 6;

/// The frame that a command puts on the wire, once it has had a response:
/// its own, and no other.
pub proof fn lemma_command_frames(cmd: u8, arg: u32, replies: Seq<ReplySpec>)
    ensures
        command_run(cmd, arg, replies).end matches Some((Ok(_), _)) ==> written(
            command_run(cmd, arg, replies).sent,
            FRAME_LEN as nat,
        ) == seq![frame(cmd, arg)],
{
    reveal(command_run);
    let len = FRAME_LEN as nat;
    let none = Seq::<Seq<u8>>::empty();
    assert(none + none =~= none);
    assert(frame(cmd, arg).len() == 6);
    let budget = crate::delay::DEFAULT_COMMAND_RETRIES as nat;
    let start = if cmd != CMD0 && cmd != CMD12 {
        poll_run(Until::Idle, budget, Error::TimeoutWaitNotBusy, replies).tail()
    } else {
        replies
    };
    let rest = start.drop_first();
    let sent = command_sent(cmd, start.first(), rest);
    lemma_poll_plain(Until::Response, budget, Error::TimeoutCommand(cmd), rest, len);
    lemma_poll_plain(Until::Response, budget, Error::TimeoutCommand(cmd), rest.drop_first(), len);
    lemma_done_plain(Err::<u8, Error>(Error::Transport), rest, len);
    lemma_done_plain(Err::<u8, Error>(Error::Transport), rest.drop_first(), len);
    lemma_ask_plain(
        ActionSpec::Transfer(0xFF),
        rest,
        command_stuffed(cmd, rest.first(), rest.drop_first()),
        len,
    );
    lemma_ask(ActionSpec::Write(frame(cmd, arg)), start, sent, len);
    lemma_one(ActionSpec::Write(frame(cmd, arg)), start, len);
    assert(seq![frame(cmd, arg)] + none =~= seq![frame(cmd, arg)]);
    if cmd != CMD0 && cmd != CMD12 {
        let busy = poll_run(Until::Idle, budget, Error::TimeoutWaitNotBusy, replies);
        lemma_poll_paced(Until::Idle, budget, Error::TimeoutWaitNotBusy, replies);
        lemma_poll_plain(Until::Idle, budget, Error::TimeoutWaitNotBusy, replies, len);
        lemma_followed(
            busy,
            command_ready(cmd, arg, busy.value(), busy.tail()),
            replies,
            poll_most(budget),
            len,
        );
        assert(none + seq![frame(cmd, arg)] =~= seq![frame(cmd, arg)]);
    }
}

proof fn lemma_acmd_frames(cmd: u8, arg: u32, replies: Seq<ReplySpec>)
    ensures
        acmd_run(cmd, arg, replies).end matches Some((Ok(_), _)) ==> written(
            acmd_run(cmd, arg, replies).sent,
            FRAME_LEN as nat,
        ) == seq![frame(CMD55, 0), frame(cmd, arg)],
{
    reveal(acmd_run);
    let len = FRAME_LEN as nat;
    let prefix = command_run(CMD55, 0, replies);
    lemma_command_paced(CMD55, 0, replies);
    lemma_command_frames(CMD55, 0, replies);
    lemma_followed(
        prefix,
        acmd_main(cmd, arg, prefix.value(), prefix.tail()),
        replies,
        COMMAND_MOST as nat,
        len,
    );
    if prefix.end is Some {
        lemma_command_frames(cmd, arg, prefix.tail());
        assert(seq![frame(CMD55, 0)] + seq![frame(cmd, arg)] =~= seq![
            frame(CMD55, 0),
            frame(cmd, arg),
        ]);
    }
}

proof fn lemma_read_blocks_frames(
    use_crc: bool,
    left: nat,
    got: Seq<Seq<u8>>,
    replies: Seq<ReplySpec>,
)
    ensures
        read_blocks_run(use_crc, left, got, replies).end matches Some((Ok(_), _)) ==> written(
            read_blocks_run(use_crc, left, got, replies).sent,
            FRAME_LEN as nat,
        ) == seq![frame(CMD12, 0)],
    decreases left,
{
    let len = FRAME_LEN as nat;
    let none = Seq::<Seq<u8>>::empty();
    let run = read_blocks_run(use_crc, left, got, replies);
    if left == 0 {
        let sent = command_run(CMD12, 0, replies);
        let next = match sent.value() {
            Err(e) => Run::done(Err(e), sent.tail()),
            Ok(_) => Run::done(Ok(got), sent.tail()),
        };
        assert(run == read_stopped(got, sent));
        assert(read_stopped(got, sent) == sent.followed_by(next));
        lemma_command_paced(CMD12, 0, replies);
        lemma_command_frames(CMD12, 0, replies);
        lemma_followed(sent, next, replies, COMMAND_MOST as nat, len);
        assert(seq![frame(CMD12, 0)] + none =~= seq![frame(CMD12, 0)]);
    } else {
        let data = read_data_run(BLOCK_LEN as nat, use_crc, replies);
        let next = match data.value() {
            Err(e) => Run::done(Err(e), data.tail()),
            Ok(payload) => read_blocks_run(
                use_crc,
                (left - 1) as nat,
                got.push(payload),
                data.tail(),
            ),
        };
        assert(run == read_block(use_crc, left, got, data));
        assert(read_block(use_crc, left, got, data) == data.followed_by(next));
        lemma_read_data_paced(BLOCK_LEN as nat, use_crc, replies);
        lemma_read_data_wire(BLOCK_LEN as nat, use_crc, replies, len);
        lemma_followed(data, next, replies, READ_DATA_MOST as nat, len);
        if data.end is Some && data.value() is Ok {
            lemma_read_blocks_frames(
                use_crc,
                (left - 1) as nat,
                got.push(data.value()->Ok_0),
                data.tail(),
            );
            assert(none + seq![frame(CMD12, 0)] =~= seq![frame(CMD12, 0)]);
        }
    }
}

/// The commands that a read sends. A read of one block that ends well on a
/// card that is known has sent the single-block read command with the wire
/// address of the block, and no other command. A read of any other number
/// of blocks has sent the multiple-block read command with the wire address
/// of the first block, and the stop command after it. In particular a card
/// that is known is not reset.
pub proof fn law_read_commands(
    card: CardType,
    opts: AcquireOpts,
    count: nat,
    start: u32,
    replies: Seq<ReplySpec>,
)
    ensures
        ({
            let run = lazy_run(Some(card), opts, RequestSpec::Read { count, start }, replies);
            let arg = wire_address(card, start);
            run.end matches Some((
                (Ok(_), _),
                _,
            )) ==> written(run.sent, FRAME_LEN as nat) == if count
                == 1 {
                seq![frame(CMD17, arg)]
            } else {
                seq![frame(CMD18, arg), frame(CMD12, 0)]
            }
        }),
{
    reveal(request_run);
    reveal(transaction_run);
    reveal(read_inner_run);
    let len = FRAME_LEN as nat;
    let none = Seq::<Seq<u8>>::empty();
    let arg = wire_address(card, start);
    let plan = PlanSpec::Read { count, arg };
    lemma_transaction_wire(plan, opts.use_crc, replies, len);
    let inside = replies.drop_first();
    if count == 1 {
        let sent = command_run(CMD17, arg, inside);
        lemma_command_paced(CMD17, arg, inside);
        lemma_command_frames(CMD17, arg, inside);
        let data = read_data_run(BLOCK_LEN as nat, opts.use_crc, sent.tail());
        let last = match data.value() {
            Err(e) => Run::done(Err(e), data.tail()),
            Ok(payload) => Run::done(Ok(seq![payload]), data.tail()),
        };
        let next = match sent.value() {
            Err(e) => Run::done(Err(e), sent.tail()),
            Ok(_) => read_single_data(data),
        };
        lemma_followed(sent, next, inside, COMMAND_MOST as nat, len);
        if sent.end is Some {
            lemma_read_data_paced(BLOCK_LEN as nat, opts.use_crc, sent.tail());
            lemma_read_data_wire(BLOCK_LEN as nat, opts.use_crc, sent.tail(), len);
            lemma_followed(data, last, sent.tail(), READ_DATA_MOST as nat, len);
            assert(none + none =~= none);
            assert(seq![frame(CMD17, arg)] + none =~= seq![frame(CMD17, arg)]);
        }
    } else {
        let sent = command_run(CMD18, arg, inside);
        lemma_command_paced(CMD18, arg, inside);
        lemma_command_frames(CMD18, arg, inside);
        let next = match sent.value() {
            Err(e) => Run::done(Err(e), sent.tail()),
            Ok(_) => read_blocks_run(opts.use_crc, count, Seq::empty(), sent.tail()),
        };
        lemma_followed(sent, next, inside, COMMAND_MOST as nat, len);
        if sent.end is Some {
            lemma_read_blocks_frames(opts.use_crc, count, Seq::empty(), sent.tail());
            assert(seq![frame(CMD18, arg)] + seq![frame(CMD12, 0)] =~= seq![
                frame(CMD18, arg),
                frame(CMD12, 0),
            ]);
        }
    }
}

proof fn lemma_write_blocks_frames(
    use_crc: bool,
    blocks: Seq<Seq<u8>>,
    from: nat,
    replies: Seq<ReplySpec>,
)
    requires
        from <= blocks.len(),
        forall|i: int| 0 <= i < blocks.len() ==> (#[trigger] blocks[i]).len() == BLOCK_LEN,
    ensures
        plain(write_blocks_run(use_crc, blocks, from, replies), replies, FRAME_LEN as nat),
    decreases blocks.len() - from,
{
    let len = FRAME_LEN as nat;
    let run = write_blocks_run(use_crc, blocks, from, replies);
    if from >= blocks.len() {
        lemma_write_end_plain(replies, len);
    } else {
        reveal(write_block_run);
        let block = blocks[from as int];
        let sent = write_block_run(block, use_crc, replies);
        let next = match sent.value() {
            Err(e) => Run::done(Err(e), sent.tail()),
            Ok(_) => write_blocks_run(use_crc, blocks, from + 1, sent.tail()),
        };
        assert(run == write_block_sent(use_crc, blocks, from, sent));
        assert(write_block_sent(use_crc, blocks, from, sent) == sent.followed_by(next));
        lemma_write_block_paced(block, use_crc, replies);
        let busy = write_wait_run(replies);
        lemma_wait_plain(replies, len);
        if busy.end is Some {
            lemma_done_plain(Err::<(), Error>(busy.value()->Err_0), busy.tail(), len);
            lemma_write_data_wire(WRITE_MULTIPLE_TOKEN, block, use_crc, busy.tail(), len);
        }
        lemma_followed_plain(
            busy,
            match busy.value() {
                Err(e) => Run::done(Err(e), busy.tail()),
                Ok(_) => write_data_run(WRITE_MULTIPLE_TOKEN, block, use_crc, busy.tail()),
            },
            replies,
            WRITE_WAIT_MOST as nat,
            len,
        );
        if sent.end is Some {
            lemma_done_plain(Err::<(), Error>(sent.value()->Err_0), sent.tail(), len);
            lemma_write_blocks_frames(use_crc, blocks, from + 1, sent.tail());
        }
        lemma_followed_plain(sent, next, replies, WRITE_BLOCK_MOST as nat, len);
    }
}

proof fn lemma_write_single_frames(
    use_crc: bool,
    block: Seq<u8>,
    arg: u32,
    inside: Seq<ReplySpec>,
)
    requires
        block.len() == BLOCK_LEN,
    ensures
        ({
            let run = write_single_sent(use_crc, block, command_run(CMD24, arg, inside));
            run.end matches Some((Ok(_), _)) ==> written(run.sent, FRAME_LEN as nat) == seq![
                frame(CMD24, arg),
                frame(CMD13, 0),
            ]
        }),
{
    let len = FRAME_LEN as nat;
    let none = Seq::<Seq<u8>>::empty();
    assert(none + none =~= none);
    let sent = command_run(CMD24, arg, inside);
    lemma_command_paced(CMD24, arg, inside);
    lemma_command_frames(CMD24, arg, inside);
    let data = write_data_run(DATA_START_BLOCK, block, use_crc, sent.tail());
    let after_sent = match sent.value() {
        Err(e) => Run::done(Err(e), sent.tail()),
        Ok(_) => write_single_data(data),
    };
    lemma_followed(sent, after_sent, inside, COMMAND_MOST as nat, len);
    if sent.end is Some && sent.value() is Ok {
        lemma_write_data_paced(DATA_START_BLOCK, block, use_crc, sent.tail());
        lemma_write_data_wire(DATA_START_BLOCK, block, use_crc, sent.tail(), len);
        let busy = write_wait_run(data.tail());
        let after_data = match data.value() {
            Err(e) => Run::done(Err(e), data.tail()),
            Ok(_) => write_single_waited(busy),
        };
        lemma_followed(data, after_data, sent.tail(), WRITE_DATA_MOST as nat, len);
        if data.end is Some && data.value() is Ok {
            lemma_wait_plain(data.tail(), len);
            let status = command_run(CMD13, 0, busy.tail());
            let after_busy = match busy.value() {
                Err(e) => Run::done(Err(e), busy.tail()),
                Ok(_) => write_single_status(status),
            };
            lemma_followed(busy, after_busy, data.tail(), WRITE_WAIT_MOST as nat, len);
            if busy.end is Some && busy.value() is Ok {
                lemma_command_paced(CMD13, 0, busy.tail());
                lemma_command_frames(CMD13, 0, busy.tail());
                let rest = status.tail();
                let second = match status.value() {
                    Err(e) => Run::done(Err(e), rest),
                    Ok(r1) => if r1 != 0 {
                        Run::done(Err(Error::WriteError), rest)
                    } else {
                        Run::ask(
                            ActionSpec::Transfer(0xFF),
                            rest,
                            write_single_second(rest.first(), rest.drop_first()),
                        )
                    },
                };
                lemma_followed(status, second, busy.tail(), COMMAND_MOST as nat, len);
                if status.end is Some {
                    lemma_done_plain(Err::<(), Error>(Error::WriteError), rest.drop_first(), len);
                    lemma_done_plain(Err::<(), Error>(Error::Transport), rest.drop_first(), len);
                    lemma_done_plain(Ok::<(), Error>(()), rest.drop_first(), len);
                    lemma_ask_plain(
                        ActionSpec::Transfer(0xFF),
                        rest,
                        write_single_second(rest.first(), rest.drop_first()),
                        len,
                    );
                    assert(seq![frame(CMD13, 0)] + none =~= seq![frame(CMD13, 0)]);
                    assert(none + seq![frame(CMD13, 0)] =~= seq![frame(CMD13, 0)]);
                    assert(seq![frame(CMD24, arg)] + seq![frame(CMD13, 0)] =~= seq![
                        frame(CMD24, arg),
                        frame(CMD13, 0),
                    ]);
                }
            }
        }
    }
}

proof fn lemma_prepare_frames(arg: u32, count: u32, inside: Seq<ReplySpec>)
    ensures
        prepare_inner_run(arg, count, inside).end matches Some((Ok(_), _)) ==> written(
            prepare_inner_run(arg, count, inside).sent,
            FRAME_LEN as nat,
        ) == seq![frame(CMD55, 0), frame(ACMD23, count), frame(CMD25, arg)],
{
    reveal(prepare_inner_run);
    let len = FRAME_LEN as nat;
    let none = Seq::<Seq<u8>>::empty();
    assert(none + none =~= none);
    let announced = acmd_run(ACMD23, count, inside);
    lemma_acmd_paced(ACMD23, count, inside);
    lemma_acmd_frames(ACMD23, count, inside);
    let busy = write_wait_run(announced.tail());
    let after_announced = match announced.value() {
        Err(e) => Run::done(Err(e), announced.tail()),
        Ok(_) => prepare_waited(arg, busy),
    };
    lemma_followed(announced, after_announced, inside, ACMD_MOST as nat, len);
    if announced.end is Some && announced.value() is Ok {
        lemma_wait_plain(announced.tail(), len);
        let open = command_run(CMD25, arg, busy.tail());
        let after_busy = match busy.value() {
            Err(e) => Run::done(Err(e), busy.tail()),
            Ok(_) => settled(open),
        };
        lemma_followed(busy, after_busy, announced.tail(), WRITE_WAIT_MOST as nat, len);
        if busy.end is Some && busy.value() is Ok {
            lemma_command_paced(CMD25, arg, busy.tail());
            lemma_command_frames(CMD25, arg, busy.tail());
            let result = match open.value() {
                Ok(_) => Ok::<(), Error>(()),
                Err(e) => Err::<(), Error>(e),
            };
            lemma_followed(
                open,
                Run::done(result, open.tail()),
                busy.tail(),
                COMMAND_MOST as nat,
                len,
            );
            let three = seq![frame(CMD55, 0), frame(ACMD23, count), frame(CMD25, arg)];
            assert(seq![frame(CMD25, arg)] + none =~= seq![frame(CMD25, arg)]);
            assert(none + seq![frame(CMD25, arg)] =~= seq![frame(CMD25, arg)]);
            assert(seq![frame(CMD55, 0), frame(ACMD23, count)] + seq![frame(CMD25, arg)] =~= three);
        }
    }
}

/// The commands that a write sends. A write of one block that ends well on
/// a card that is known has sent the single-block write command with the
/// wire address of the block and the status command, and no other. A write
/// of any other number of blocks has announced that number, and sent the
/// multiple-block write command with the wire address of the first block.
/// In particular a card that is known is not reset.
pub proof fn law_write_commands(
    card: CardType,
    opts: AcquireOpts,
    blocks: Seq<Seq<u8>>,
    start: u32,
    replies: Seq<ReplySpec>,
)
    requires
        forall|i: int| 0 <= i < blocks.len() ==> (#[trigger] blocks[i]).len() == BLOCK_LEN,
    ensures
        ({
            let run = lazy_run(Some(card), opts, RequestSpec::Write { blocks, start }, replies);
            let arg = wire_address(card, start);
            run.end matches Some((
                (Ok(_), _),
                _,
            )) ==> written(run.sent, FRAME_LEN as nat) == if blocks.len()
                == 1 {
                seq![frame(CMD24, arg), frame(CMD13, 0)]
            } else {
                seq![frame(CMD55, 0), frame(ACMD23, blocks.len() as u32), frame(CMD25, arg)]
            }
        }),
{
    reveal(request_run);
    reveal(transaction_run);
    reveal(write_inner_run);
    let len = FRAME_LEN as nat;
    let arg = wire_address(card, start);
    let plan = PlanSpec::Write { blocks, arg };
    lemma_transaction_wire(plan, opts.use_crc, replies, len);
    let inside = replies.drop_first();
    if blocks.len() == 1 {
        lemma_write_single_frames(opts.use_crc, blocks[0], arg, inside);
    } else {
        let count = blocks.len() as u32;
        let opened = prepare_inner_run(arg, count, inside);
        lemma_prepare_inner_paced(arg, count, inside);
        lemma_prepare_frames(arg, count, inside);
        let next = match opened.value() {
            Err(e) => Run::done(Err(e), opened.tail()),
            Ok(_) => write_blocks_run(opts.use_crc, blocks, 0, opened.tail()),
        };
        lemma_followed(opened, next, inside, PREPARE_MOST as nat, len);
        if opened.end is Some && opened.value() is Ok {
            lemma_write_blocks_frames(opts.use_crc, blocks, 0, opened.tail());
            let three = seq![frame(CMD55, 0), frame(ACMD23, count), frame(CMD25, arg)];
            assert(three + Seq::<Seq<u8>>::empty() =~= three);
        }
    }
}

proof fn lemma_read_blocks_count(
    use_crc: bool,
    left: nat,
    got: Seq<Seq<u8>>,
    replies: Seq<ReplySpec>,
)
    ensures
        read_blocks_run(use_crc, left, got, replies).end matches Some((Ok(blocks), _))
            ==> blocks.len() == got.len() + left,
    decreases left,
{
    let run = read_blocks_run(use_crc, left, got, replies);
    if left == 0 {
        let sent = command_run(CMD12, 0, replies);
        assert(run == read_stopped(got, sent));
    } else {
        let data = read_data_run(BLOCK_LEN as nat, use_crc, replies);
        assert(run == read_block(use_crc, left, got, data));
        if data.end is Some && data.value() is Ok {
            lemma_read_blocks_count(
                use_crc,
                (left - 1) as nat,
                got.push(data.value()->Ok_0),
                data.tail(),
            );
        }
    }
}

/// A read yields as many blocks as it was asked for.
pub proof fn law_read_yields_as_many_as_asked(
    card: CardType,
    opts: AcquireOpts,
    count: nat,
    start: u32,
    replies: Seq<ReplySpec>,
)
    ensures
        ({
            let run = lazy_run(Some(card), opts, RequestSpec::Read { count, start }, replies);
            run.end matches Some(((Ok(_), _), _)) ==> received(
                run.sent,
                replies,
                BLOCK_LEN as nat,
            ).len() == count
        }),
{
    law_read_hands_back_what_arrived(card, opts, count, start, replies);
    reveal(request_run);
    reveal(transaction_run);
    reveal(read_inner_run);
    let arg = wire_address(card, start);
    let inside = replies.drop_first();
    if count != 1 {
        let sent = command_run(CMD18, arg, inside);
        if sent.end is Some {
            lemma_read_blocks_count(opts.use_crc, count, Seq::empty(), sent.tail());
        }
    }
}

/// The commands that the opening of a multiple-block write sends: on a card
/// that is known, an opening that ends well has announced the number of
/// blocks, and sent the multiple-block write command with the wire address
/// of the first block.
pub proof fn law_prepare_write_commands(
    card: CardType,
    opts: AcquireOpts,
    start: u32,
    count: u32,
    replies: Seq<ReplySpec>,
)
    ensures
        ({
            let run = lazy_run(
                Some(card),
                opts,
                RequestSpec::PrepareWrite { start, len: count },
                replies,
            );
            run.end matches Some(((Ok(_), _), _)) ==> written(run.sent, FRAME_LEN as nat) == seq![
                frame(CMD55, 0),
                frame(ACMD23, count),
                frame(CMD25, wire_address(card, start)),
            ]
        }),
{
    reveal(request_run);
    reveal(transaction_run);
    let arg = wire_address(card, start);
    let plan = PlanSpec::PrepareWrite { arg, len: count };
    lemma_transaction_wire(plan, opts.use_crc, replies, FRAME_LEN as nat);
    lemma_prepare_frames(arg, count, replies.drop_first());
}

/// One way or the other, the same blocks go to the same places. Where a
/// write of several blocks ends well, and the write of one of them alone to
/// its own place ends well, both have put that block on the wire unchanged:
/// the one as the payload at its index, after the multiple-block write
/// command for the first block, the other as its only payload, after the
/// single-block write command for the block itself.
pub proof fn law_single_and_multiple_writes_carry_the_same(
    card: CardType,
    opts: AcquireOpts,
    blocks: Seq<Seq<u8>>,
    start: u32,
    index: u32,
    together: Seq<ReplySpec>,
    alone: Seq<ReplySpec>,
)
    requires
        forall|i: int| 0 <= i < blocks.len() ==> (#[trigger] blocks[i]).len() == BLOCK_LEN,
        blocks.len() >= 2,
        index < blocks.len(),
        start + index <= u32::MAX,
        lazy_run(
            Some(card),
            opts,
            RequestSpec::Write { blocks, start },
            together,
        ).end matches Some(((Ok(_), _), _)),
        lazy_run(
            Some(card),
            opts,
            RequestSpec::Write {
                blocks: seq![blocks[index as int]],
                start: (start + index) as u32,
            },
            alone,
        ).end matches Some(((Ok(_), _), _)),
    ensures
        ({
            let many = lazy_run(
                Some(card),
                opts,
                RequestSpec::Write { blocks, start },
                together,
            );
            let one = lazy_run(
                Some(card),
                opts,
                RequestSpec::Write {
                    blocks: seq![blocks[index as int]],
                    start: (start + index) as u32,
                },
                alone,
            );
            &&& written(many.sent, BLOCK_LEN as nat)[index as int] == blocks[index as int]
            &&& written(one.sent, BLOCK_LEN as nat) == seq![blocks[index as int]]
            &&& written(many.sent, FRAME_LEN as nat).last() == frame(
                CMD25,
                wire_address(card, start),
            )
            &&& written(one.sent, FRAME_LEN as nat).first() == frame(
                CMD24,
                wire_address(card, (start + index) as u32),
            )
        }),
{
    let single = seq![blocks[index as int]];
    law_write_puts_the_blocks_on_the_wire(card, opts, blocks, start, together);
    law_write_puts_the_blocks_on_the_wire(card, opts, single, (start + index) as u32, alone);
    law_write_commands(card, opts, blocks, start, together);
    law_write_commands(card, opts, single, (start + index) as u32, alone);
}

/// A session puts its blocks on the wire, and hands back what came off it.
/// A block of an open write that is written well has gone over the wire
/// unchanged, and is the only payload of its length that has. A packet of
/// an open read that is read well is the payload of its length that came
/// off the wire, and the only one.
pub proof fn law_session_transfers(
    card: Option<CardType>,
    use_crc: bool,
    block: Seq<u8>,
    len: nat,
    replies: Seq<ReplySpec>,
)
    requires
        block.len() != 2,
        len != 2,
    ensures
        ({
            let run = session_write_run(State::Write, card, use_crc, block, replies);
            run.end matches Some(((Ok(_), _), _)) ==> written(run.sent, block.len()) == seq![
                block,
            ]
        }),
        ({
            let run = session_read_run(State::Read, card, use_crc, len, replies);
            run.end matches Some(((Ok(output), _), _)) ==> output == OutputSpec::Payload(
                received(run.sent, replies, len)[0],
            ) && received(run.sent, replies, len).len() == 1
        }),
{
    let none = Seq::<Seq<u8>>::empty();
    let sending = knowing(write_inner_block_run(block, use_crc, replies), card);
    lemma_write_block_paced(block, use_crc, replies);
    lemma_write_block_wire(block, use_crc, replies);
    assert(sending.paced(replies, WRITE_BLOCK_MOST as nat));
    let sent = guarded(use_crc, false, sending);
    if sent.end is Some && sent.value().0 is Ok {
        lemma_followed(
            sending,
            Run::done(sending.value(), sending.tail()),
            replies,
            WRITE_BLOCK_MOST as nat,
            block.len(),
        );
        assert(seq![block] + none =~= seq![block]);
    }
    let reading = knowing(read_data_op_run(len, use_crc, replies), card);
    lemma_read_data_paced(len, use_crc, replies);
    lemma_read_data_wire(len, use_crc, replies, len);
    assert(reading.paced(replies, READ_DATA_MOST as nat));
    let read = guarded(use_crc, true, reading);
    if read.end is Some && read.value().0 is Ok {
        lemma_followed(
            reading,
            Run::done(reading.value(), reading.tail()),
            replies,
            READ_DATA_MOST as nat,
            len,
        );
        let payload = read_data_run(len, use_crc, replies).value()->Ok_0;
        assert(seq![payload] + none =~= seq![payload]);
    }
}

} // verus!
