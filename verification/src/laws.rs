//! What holds of every conversation, whatever the bus replies.

use crate::acquire::{acquire_attempted, acquire_inner_run, acquire_run};
use crate::bus::{ActionSpec, ReplySpec, Run};
use crate::data::{
    be16, crc_trailer, crc_verdict, lemma_trailer_passes, read_data_checksum, read_data_run,
    write_data_run,
};
use crate::command::{command_run, frame};
use crate::inner::{acquire_op_run, wire_address};
use crate::transfer::read_inner_run;
use crate::multiblock::{
    guarded, session_prepare_read_run, session_prepare_write_run, session_read_run,
    session_stop_read_run, session_stop_write_run, session_write_run, stopped, State,
};
use crate::outcome::OutputSpec;
use crate::pace::{
    lemma_acquire_inner_paced, lemma_acquire_paced, lemma_body_paced, lemma_transaction_paced,
};
use crate::poll::poll_run;
use crate::proto::{
    crc16_of, law_crc16_catches_a_flipped_bit, CMD0, CMD12, CMD17, DATA_START_BLOCK,
    WRITE_MULTIPLE_TOKEN,
};
use crate::sdcard::{knowing, lazy_run, request_run, RequestSpec, Settled};
use crate::transaction::{body_run, closing, transaction_run, PlanSpec};
use crate::types::{AcquireOpts, CardType, Error, BLOCK_LEN};
use vstd::prelude::*;

verus! {

/// Whether chip-select is high at the end of a conversation that issued
/// `sent` and was answered with `replies`: the last action deselected the
/// card and the pin obeyed, or that was the last action but one and nothing
/// followed it but the one idle byte that makes the card release the bus.
pub open spec fn ends_deselected(sent: Seq<ActionSpec>, replies: Seq<ReplySpec>) -> bool {
    let n = sent.len() as int;
    ||| n >= 1 && replies.len() >= n && sent[n - 1] == ActionSpec::CsHigh && replies[n - 1]
        == ReplySpec::Done
    ||| n >= 2 && replies.len() >= n && sent[n - 2] == ActionSpec::CsHigh && replies[n - 2]
        == ReplySpec::Done && sent[n - 1] == ActionSpec::Transfer(0xFF)
}

/// A transaction that comes to an end, and not because a pin could not be
/// driven, has deselected the card as its last action, and the pin obeyed,
/// unless it is an opening that succeeded.
pub proof fn law_transaction_deselects(plan: PlanSpec, use_crc: bool, replies: Seq<ReplySpec>)
    ensures
        ({
            let run = transaction_run(plan, use_crc, replies);
            run.end matches Some((outcome, _)) && outcome != Err::<OutputSpec, Error>(
                Error::GpioError,
            ) && (plan.releases_always() || outcome is Err) ==> run.sent.len() >= 1
                && run.sent.len() <= replies.len() && run.sent.last() == ActionSpec::CsHigh
                && replies[run.sent.len() - 1] == ReplySpec::Done
        }),
{
    reveal(transaction_run);
    let inside = if plan.selects() {
        replies.drop_first()
    } else {
        replies
    };
    let body = body_run(plan, use_crc, inside);
    lemma_body_paced(plan, use_crc, inside);
    lemma_transaction_paced(plan, use_crc, replies);
    let closed = closing(plan.releases_always(), body);
    let run = transaction_run(plan, use_crc, replies);
    if closed.end is Some && closed.end.unwrap().0 != Err::<OutputSpec, Error>(Error::GpioError)
        && (plan.releases_always() || closed.end.unwrap().0 is Err) {
        let k = body.sent.len() as int;
        assert(closed.sent.len() == k + 1 && closed.sent.last() == ActionSpec::CsHigh);
        assert(body.tail().first() == ReplySpec::Done);
        assert(body.tail() == inside.skip(k));
        assert(inside[k] == ReplySpec::Done);
    }
}

/// An acquisition that comes to an end, and not because a pin could not be
/// driven, has deselected the card and clocked one idle byte as its last
/// two actions, whether it found a card or not, and the pin obeyed.
pub proof fn law_acquire_deselects(opts: AcquireOpts, replies: Seq<ReplySpec>)
    ensures
        ({
            let run = acquire_run(opts, replies);
            run.end matches Some((result, _)) && result != Err::<CardType, Error>(
                Error::GpioError,
            ) ==> run.sent.len() >= 2 && run.sent.len() <= replies.len()
                && run.sent[run.sent.len() - 2] == ActionSpec::CsHigh && replies[run.sent.len()
                - 2] == ReplySpec::Done && run.sent.last() == ActionSpec::Transfer(0xFF)
        }),
{
    reveal(acquire_run);
    let attempt = acquire_inner_run(opts, replies);
    let run = acquire_attempted(attempt);
    lemma_acquire_inner_paced(opts, replies);
    lemma_acquire_paced(opts, replies);
    if run.end is Some && run.end.unwrap().0 != Err::<CardType, Error>(Error::GpioError) {
        let n = attempt.sent.len() as int;
        assert(run.sent.len() == n + 2);
        assert(run.sent[n] == ActionSpec::CsHigh);
        assert(run.sent[n + 1] == ActionSpec::Transfer(0xFF));
        assert(attempt.tail() == replies.skip(n));
        assert(attempt.tail().first() == ReplySpec::Done);
        assert(replies[n] == ReplySpec::Done);
    }
}

/// Chip-select is high when an operation of the block device returns. A
/// read, a write or a question to the register that comes to an end, and
/// not because a pin could not be driven, has deselected the card last of
/// all it did to chip-select, and the pin obeyed: whether the card had to
/// be acquired first or not, and whether the operation succeeded or not.
pub proof fn law_operation_deselects(
    card: Option<CardType>,
    opts: AcquireOpts,
    request: RequestSpec,
    replies: Seq<ReplySpec>,
)
    requires
        request is Read || request is Write || request is Query,
    ensures
        ({
            let run = lazy_run(card, opts, request, replies);
            run.end matches Some(((outcome, _), _)) && outcome != Err::<OutputSpec, Error>(
                Error::GpioError,
            ) ==> ends_deselected(run.sent, replies)
        }),
{
    reveal(request_run);
    let run = lazy_run(card, opts, request, replies);
    if run.end is Some && run.value().0 != Err::<OutputSpec, Error>(Error::GpioError) {
        match card {
            Some(known) => {
                lemma_request_deselects(known, opts.use_crc, request, replies);
            },
            None => {
                law_acquire_deselects(opts, replies);
                lemma_acquire_paced(opts, replies);
                let check = acquire_op_run(opts, replies);
                let k = check.sent.len() as int;
                match check.value() {
                    Ok(OutputSpec::Card(Some(found))) => {
                        let served = request_run(Some(found), opts.use_crc, request, check.tail());
                        lemma_request_deselects(found, opts.use_crc, request, check.tail());
                        assert(check.tail() == replies.skip(k));
                        assert(run.sent == check.sent + served.sent);
                        let m = served.sent.len() as int;
                        assert(run.sent.last() == served.sent.last());
                        assert(check.tail()[m - 1] == replies[k + m - 1]);
                    },
                    Ok(_) => {},
                    Err(e) => {
                        assert(run.sent =~= check.sent);
                    },
                }
            },
        }
    }
}

/// What an operation leaves known of the card. A card that is known stays
/// known as what it was, whatever comes of the operation: no failure makes
/// the driver forget it. A card that was not known is known when the
/// operation has ended well, unless all that the operation reports is that
/// there is no card.
pub proof fn law_operation_leaves_card_known(
    card: Option<CardType>,
    opts: AcquireOpts,
    request: RequestSpec,
    replies: Seq<ReplySpec>,
)
    ensures
        ({
            let run = lazy_run(card, opts, request, replies);
            run.end matches Some(((outcome, known), _)) ==> {
                &&& card is Some ==> known == card
                &&& outcome is Ok && outcome != Ok::<OutputSpec, Error>(OutputSpec::Card(None))
                    ==> known is Some
                &&& outcome == Ok::<OutputSpec, Error>(OutputSpec::Card(None)) ==> known is None
            }
        }),
{
    reveal(request_run);
    reveal(transaction_run);
    if card is None {
        let check = acquire_op_run(opts, replies);
        match check.value() {
            Ok(OutputSpec::Card(Some(found))) => {
                lemma_request_reports_the_card(found, opts.use_crc, request, check.tail());
            },
            _ => {},
        }
    } else {
        lemma_request_reports_the_card(card->Some_0, opts.use_crc, request, replies);
    }
}

proof fn lemma_request_reports_the_card(
    card: CardType,
    use_crc: bool,
    request: RequestSpec,
    replies: Seq<ReplySpec>,
)
    ensures
        request_run(Some(card), use_crc, request, replies).value() != Ok::<OutputSpec, Error>(
            OutputSpec::Card(None),
        ) || request_run(Some(card), use_crc, request, replies).end is None,
{
    reveal(request_run);
    match request {
        RequestSpec::CardType => {},
        RequestSpec::Read { count, start } => {
            lemma_transaction_reports_no_card(
                PlanSpec::Read { count, arg: wire_address(card, start) },
                use_crc,
                replies,
            );
        },
        RequestSpec::Write { blocks, start } => {
            lemma_transaction_reports_no_card(
                PlanSpec::Write { blocks, arg: wire_address(card, start) },
                use_crc,
                replies,
            );
        },
        RequestSpec::Query(query) => {
            lemma_transaction_reports_no_card(
                PlanSpec::Query { card: Some(card), query },
                use_crc,
                replies,
            );
        },
        RequestSpec::PrepareRead { start } => {
            lemma_transaction_reports_no_card(
                PlanSpec::PrepareRead { arg: wire_address(card, start) },
                use_crc,
                replies,
            );
        },
        RequestSpec::PrepareWrite { start, len } => {
            lemma_transaction_reports_no_card(
                PlanSpec::PrepareWrite { arg: wire_address(card, start), len },
                use_crc,
                replies,
            );
        },
    }
}

proof fn lemma_transaction_reports_no_card(plan: PlanSpec, use_crc: bool, replies: Seq<ReplySpec>)
    ensures
        transaction_run(plan, use_crc, replies).end matches Some((Ok(output), _)) ==> !(
        output is Card),
{
    reveal(transaction_run);
}

proof fn lemma_request_deselects(
    card: CardType,
    use_crc: bool,
    request: RequestSpec,
    replies: Seq<ReplySpec>,
)
    requires
        request is Read || request is Write || request is Query,
    ensures
        ({
            let run = request_run(Some(card), use_crc, request, replies);
            run.end matches Some((outcome, _)) && outcome != Err::<OutputSpec, Error>(
                Error::GpioError,
            ) ==> run.sent.len() >= 1 && run.sent.len() <= replies.len() && run.sent.last()
                == ActionSpec::CsHigh && replies[run.sent.len() - 1] == ReplySpec::Done
        }),
{
    reveal(request_run);
    match request {
        RequestSpec::Read { count, start } => {
            law_transaction_deselects(
                PlanSpec::Read { count, arg: wire_address(card, start) },
                use_crc,
                replies,
            );
        },
        RequestSpec::Write { blocks, start } => {
            law_transaction_deselects(
                PlanSpec::Write { blocks, arg: wire_address(card, start) },
                use_crc,
                replies,
            );
        },
        RequestSpec::Query(query) => {
            law_transaction_deselects(
                PlanSpec::Query { card: Some(card), query },
                use_crc,
                replies,
            );
        },
        _ => {},
    }
}

/// A packet or block of a session that fails, and not because a pin could
/// not be driven, leaves the card deselected: the transfer is closed before
/// the failure is reported, and the last action of the closing deselects
/// the card.
pub proof fn law_failed_transfer_deselects(use_crc: bool, reading: bool, data: Run<Settled>)
    ensures
        ({
            let run = guarded(use_crc, reading, data);
            run.end matches Some(((outcome, _), _)) && outcome is Err && outcome != Err::<
                OutputSpec,
                Error,
            >(Error::GpioError) ==> run.sent.len() >= 1 && run.sent.last() == ActionSpec::CsHigh
        }),
{
    let run = guarded(use_crc, reading, data);
    if data.end is Some && data.value().0 is Err {
        let plan = if reading {
            PlanSpec::EndRead
        } else {
            PlanSpec::EndWrite
        };
        let stop = transaction_run(plan, use_crc, data.tail());
        law_transaction_deselects(plan, use_crc, data.tail());
        let closed = stopped(data.value().0->Err_0, knowing(stop, data.value().1));
        if closed.end is Some && closed.value().0 != Err::<OutputSpec, Error>(Error::GpioError) {
            assert(closed.sent =~= stop.sent);
            assert(run.sent == data.sent + closed.sent);
            assert(run.sent.last() == closed.sent.last());
        }
    }
}

/// The discipline of a session. With a transfer open, nothing can be
/// opened; with none open, or one of the other kind, nothing can be read,
/// written or closed. Each of these fails with [`Error::BadState`], without
/// a single action on the bus and without a change to what is known of the
/// card.
pub proof fn law_session_discipline(
    state: State,
    card: Option<CardType>,
    opts: AcquireOpts,
    start: u32,
    len: u32,
    size: nat,
    block: Seq<u8>,
    replies: Seq<ReplySpec>,
)
    ensures
        ({
            let refused = Run::done((Err::<OutputSpec, Error>(Error::BadState), card), replies);
            &&& state != State::Init ==> session_prepare_read_run(
                state,
                card,
                opts,
                start,
                replies,
            ) == refused
            &&& state != State::Init ==> session_prepare_write_run(
                state,
                card,
                opts,
                start,
                len,
                replies,
            ) == refused
            &&& state != State::Read ==> session_read_run(
                state,
                card,
                opts.use_crc,
                size,
                replies,
            ) == refused
            &&& state != State::Read ==> session_stop_read_run(state, card, opts.use_crc, replies)
                == refused
            &&& state != State::Write ==> session_write_run(
                state,
                card,
                opts.use_crc,
                block,
                replies,
            ) == refused
            &&& state != State::Write ==> session_stop_write_run(
                state,
                card,
                opts.use_crc,
                replies,
            ) == refused
        }),
{
}

/// A payload that is read with checksums in use is accepted only if its
/// CRC-16 is the value that the two checksum bytes carry, the more
/// significant byte first.
pub proof fn law_accepted_checksum(
    payload: Seq<u8>,
    reply: ReplySpec,
    replies: Seq<ReplySpec>,
)
    ensures
        read_data_checksum(
            true,
            payload,
            reply,
            replies,
        ).value() is Ok ==> (reply matches ReplySpec::Bytes(
            crc,
        ) && crc.len() == 2 && crc16_of(payload) == be16(crc[0], crc[1])),
{
}

/// A payload that arrives with one bit flipped, under the checksum of the
/// payload that was sent, is rejected when checksums are in use, and the
/// error carries two values that differ: the checksum received and the one
/// computed.
pub proof fn law_flipped_bit_is_rejected(payload: Seq<u8>, at: int, bit: u8)
    requires
        0 <= at < payload.len(),
        bit < 8,
    ensures
        ({
            let trailer = crc_trailer(true, payload);
            let flipped = payload.update(at, payload[at] ^ (1u8 << bit));
            crc_verdict(true, flipped, trailer[0], trailer[1]) matches Err(
                Error::CrcError(received, computed),
            ) && received != computed && received == crc16_of(payload)
        }),
{
    law_crc16_catches_a_flipped_bit(payload, at, bit);
    let crc = crc16_of(payload);
    assert(((crc / 256) as u8) as u16 * 256 + ((crc % 256) as u8) as u16 == crc);
}

/// A block goes over the wire in the same way whether it is written alone
/// or as one of several: the two packets differ in their token and in
/// nothing else.
pub proof fn law_packets_differ_in_token_only(
    payload: Seq<u8>,
    use_crc: bool,
    replies: Seq<ReplySpec>,
)
    ensures
        ({
            let alone = write_data_run(DATA_START_BLOCK, payload, use_crc, replies);
            let among = write_data_run(WRITE_MULTIPLE_TOKEN, payload, use_crc, replies);
            &&& alone.end == among.end
            &&& alone.sent.len() == among.sent.len()
            &&& alone.sent.len() >= 1
            &&& alone.sent[0] == ActionSpec::Transfer(DATA_START_BLOCK)
            &&& among.sent[0] == ActionSpec::Transfer(WRITE_MULTIPLE_TOKEN)
            &&& forall|i: int| 1 <= i < alone.sent.len() ==> alone.sent[i] == among.sent[i]
        }),
{
    reveal(write_data_run);
}

/// What is written as a data packet reads back as the payload that went
/// in. The packet that a write sends is the token, the payload and the
/// trailer; a read that is answered with the start token, that payload and
/// the trailer of a card that computes checksums yields the payload, with
/// checksums in use or not.
pub proof fn law_packet_round_trip(
    token: u8,
    payload: Seq<u8>,
    use_crc: bool,
    sending: Seq<ReplySpec>,
    rest: Seq<ReplySpec>,
)
    requires
        sending.len() >= 4,
        sending[0] is Byte,
        sending[1] is Done,
        sending[2] is Done,
        sending[3] is Byte,
    ensures
        write_data_run(token, payload, use_crc, sending).sent == seq![
            ActionSpec::Transfer(token),
            ActionSpec::Write(payload),
            ActionSpec::Write(crc_trailer(use_crc, payload)),
            ActionSpec::Transfer(0xFF),
        ],
        read_data_run(
            payload.len(),
            use_crc,
            seq![
                ReplySpec::Byte(DATA_START_BLOCK),
                ReplySpec::Bytes(payload),
                ReplySpec::Bytes(crc_trailer(true, payload)),
            ] + rest,
        ).end == Some((Ok::<Seq<u8>, Error>(payload), rest)),
{
    reveal(write_data_run);
    reveal(read_data_run);
    let s1 = sending.drop_first();
    let s2 = s1.drop_first();
    let s3 = s2.drop_first();
    assert(s1.first() == sending[1]);
    assert(s2.first() == sending[2]);
    assert(s3.first() == sending[3]);
    assert(write_data_run(token, payload, use_crc, sending).sent =~= seq![
        ActionSpec::Transfer(token),
        ActionSpec::Write(payload),
        ActionSpec::Write(crc_trailer(use_crc, payload)),
        ActionSpec::Transfer(0xFF),
    ]);
    let answers = seq![
        ReplySpec::Byte(DATA_START_BLOCK),
        ReplySpec::Bytes(payload),
        ReplySpec::Bytes(crc_trailer(true, payload)),
    ] + rest;
    let a1 = answers.drop_first();
    let a2 = a1.drop_first();
    let a3 = a2.drop_first();
    assert(a1.first() == answers[1]);
    assert(a2.first() == answers[2]);
    assert(a3 =~= rest);
    lemma_trailer_passes(use_crc, payload);
    reveal_with_fuel(poll_run, 2);
}

proof fn lemma_command_at_once(cmd: u8, arg: u32, r1: u8, rest: Seq<ReplySpec>)
    requires
        cmd != CMD0,
        cmd != CMD12,
        r1 < 0x80,
    ensures
        ({
            let replies = seq![ReplySpec::Byte(0xFF), ReplySpec::Done, ReplySpec::Byte(r1)] + rest;
            let run = command_run(cmd, arg, replies);
            &&& run.sent == seq![
                ActionSpec::Transfer(0xFF),
                ActionSpec::Write(frame(cmd, arg)),
                ActionSpec::Transfer(0xFF),
            ]
            &&& run.end == Some((Ok::<u8, Error>(r1), rest))
        }),
{
    reveal(command_run);
    reveal_with_fuel(poll_run, 2);
    let replies = seq![ReplySpec::Byte(0xFF), ReplySpec::Done, ReplySpec::Byte(r1)] + rest;
    let a1 = replies.drop_first();
    let a2 = a1.drop_first();
    let a3 = a2.drop_first();
    assert(replies.first() == replies[0]);
    assert(a1.first() == replies[1]);
    assert(a2.first() == replies[2]);
    assert(a3 =~= rest);
    let run = command_run(cmd, arg, replies);
    assert(run.sent =~= seq![
        ActionSpec::Transfer(0xFF),
        ActionSpec::Write(frame(cmd, arg)),
        ActionSpec::Transfer(0xFF),
    ]);
}

proof fn lemma_packet_at_once(payload: Seq<u8>, use_crc: bool, rest: Seq<ReplySpec>)
    ensures
        ({
            let replies = seq![
                ReplySpec::Byte(DATA_START_BLOCK),
                ReplySpec::Bytes(payload),
                ReplySpec::Bytes(crc_trailer(true, payload)),
            ] + rest;
            let run = read_data_run(payload.len(), use_crc, replies);
            &&& run.sent == seq![
                ActionSpec::Transfer(0xFF),
                ActionSpec::Read(payload.len()),
                ActionSpec::Read(2),
            ]
            &&& run.end == Some((Ok::<Seq<u8>, Error>(payload), rest))
        }),
{
    reveal(read_data_run);
    reveal_with_fuel(poll_run, 2);
    let replies = seq![
        ReplySpec::Byte(DATA_START_BLOCK),
        ReplySpec::Bytes(payload),
        ReplySpec::Bytes(crc_trailer(true, payload)),
    ] + rest;
    let a1 = replies.drop_first();
    let a2 = a1.drop_first();
    let a3 = a2.drop_first();
    assert(replies.first() == replies[0]);
    assert(a1.first() == replies[1]);
    assert(a2.first() == replies[2]);
    assert(a3 =~= rest);
    lemma_trailer_passes(use_crc, payload);
    let run = read_data_run(payload.len(), use_crc, replies);
    assert(run.sent =~= seq![
        ActionSpec::Transfer(0xFF),
        ActionSpec::Read(payload.len()),
        ActionSpec::Read(2),
    ]);
}

/// A failure is fatal to its operation only. Whatever went before, a read
/// of one block on a card that is known, on a bus that answers as a card
/// does, selects the card, waits for it, sends the single-block read
/// command, takes the response, the token, the payload and the checksum,
/// deselects the card and yields the payload: eight actions, none of them a
/// reset, and the card stays known as it was.
pub proof fn law_read_of_one_block(
    card: CardType,
    opts: AcquireOpts,
    start: u32,
    r1: u8,
    payload: Seq<u8>,
    rest: Seq<ReplySpec>,
)
    requires
        payload.len() == BLOCK_LEN,
        r1 < 0x80,
    ensures
        ({
            let replies = seq![
                ReplySpec::Done,
                ReplySpec::Byte(0xFF),
                ReplySpec::Done,
                ReplySpec::Byte(r1),
                ReplySpec::Byte(DATA_START_BLOCK),
                ReplySpec::Bytes(payload),
                ReplySpec::Bytes(crc_trailer(true, payload)),
                ReplySpec::Done,
            ] + rest;
            let run = lazy_run(Some(card), opts, RequestSpec::Read { count: 1, start }, replies);
            &&& run.sent == seq![
                ActionSpec::CsLow,
                ActionSpec::Transfer(0xFF),
                ActionSpec::Write(frame(CMD17, wire_address(card, start))),
                ActionSpec::Transfer(0xFF),
                ActionSpec::Transfer(0xFF),
                ActionSpec::Read(BLOCK_LEN as nat),
                ActionSpec::Read(2),
                ActionSpec::CsHigh,
            ]
            &&& run.end == Some(
                ((Ok::<OutputSpec, Error>(OutputSpec::Blocks(seq![payload])), Some(card)), rest),
            )
        }),
{
    let arg = wire_address(card, start);
    let last = seq![ReplySpec::Done] + rest;
    let packet = seq![
        ReplySpec::Byte(DATA_START_BLOCK),
        ReplySpec::Bytes(payload),
        ReplySpec::Bytes(crc_trailer(true, payload)),
    ] + last;
    let inside = seq![ReplySpec::Byte(0xFF), ReplySpec::Done, ReplySpec::Byte(r1)] + packet;
    let replies = seq![
        ReplySpec::Done,
        ReplySpec::Byte(0xFF),
        ReplySpec::Done,
        ReplySpec::Byte(r1),
        ReplySpec::Byte(DATA_START_BLOCK),
        ReplySpec::Bytes(payload),
        ReplySpec::Bytes(crc_trailer(true, payload)),
        ReplySpec::Done,
    ] + rest;
    assert(replies.drop_first() =~= inside);
    assert(replies.first() == ReplySpec::Done);
    assert(last.first() == ReplySpec::Done);
    assert(last.drop_first() =~= rest);
    lemma_command_at_once(CMD17, arg, r1, packet);
    lemma_packet_at_once(payload, opts.use_crc, last);
    let command = command_run(CMD17, arg, inside);
    let data = read_data_run(BLOCK_LEN as nat, opts.use_crc, packet);
    let inner = read_inner_run(opts.use_crc, 1, arg, inside);
    assert(inner.sent =~= command.sent + data.sent && inner.end == Some(
        (Ok::<Seq<Seq<u8>>, Error>(seq![payload]), last),
    )) by {
        reveal(read_inner_run);
    }
    let run = lazy_run(Some(card), opts, RequestSpec::Read { count: 1, start }, replies);
    assert(run.sent =~= seq![ActionSpec::CsLow] + (inner.sent + seq![ActionSpec::CsHigh])
        && run.end == Some(
        ((Ok::<OutputSpec, Error>(OutputSpec::Blocks(seq![payload])), Some(card)), rest),
    )) by {
        reveal(request_run);
        reveal(transaction_run);
    }
    assert(run.sent =~= seq![
        ActionSpec::CsLow,
        ActionSpec::Transfer(0xFF),
        ActionSpec::Write(frame(CMD17, arg)),
        ActionSpec::Transfer(0xFF),
        ActionSpec::Transfer(0xFF),
        ActionSpec::Read(BLOCK_LEN as nat),
        ActionSpec::Read(2),
        ActionSpec::CsHigh,
    ]);
}

} // verus!
