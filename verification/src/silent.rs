//! A bus without a card: every byte reads `0xFF`, and nothing fails.
//!
//! On such a bus an acquisition sends the reset command as often as its
//! options allow, and no more, before it reports that no card was found.

use crate::acquire::{
    acquire_deselected, acquire_inner_run, acquire_release, acquire_released, acquire_run,
    acquire_selected, acquire_woken, flush_byte, flush_run, reset_answered, reset_flushed,
    reset_retry, reset_run, reset_sent, FLUSH_LEN, WAKE_LEN,
};
use crate::bus::{ActionSpec, ReplySpec, Run};
use crate::command::{command_response, command_run, command_send, command_sent, frame};
use crate::delay::{DEFAULT_COMMAND_RETRIES, TICK_US};
use crate::inner::acquire_op_run;
use crate::outcome::OutputSpec;
use crate::pace::{lemma_acquire_inner_paced, lemma_command_paced, lemma_flush_paced, COMMAND_MOST};
use crate::poll::{poll_byte, poll_run, Until};
use crate::proto::CMD0;
use crate::sdcard::{lazy_run, unserved, RequestSpec};
use crate::types::{AcquireOpts, CardType, Error};
use vstd::prelude::*;

verus! {

/// What a bus without a card answers to an action: `0xFF` for every byte
/// clocked in, and no failure.
pub open spec fn silence(action: ActionSpec) -> ReplySpec {
    match action {
        ActionSpec::Transfer(_) => ReplySpec::Byte(0xFF),
        ActionSpec::Read(len) => ReplySpec::Bytes(Seq::new(len, |i: int| 0xFFu8)),
        _ => ReplySpec::Done,
    }
}

/// Whether `replies` are what a bus without a card answers to `sent`, one
/// reply to each action, as far as both go.
pub open spec fn silent(sent: Seq<ActionSpec>, replies: Seq<ReplySpec>) -> bool {
    forall|i: int|
        0 <= i < sent.len() && i < replies.len() ==> #[trigger] replies[i] == silence(sent[i])
}

/// How many of the actions `sent` send the frame of the reset command.
pub open spec fn resets(sent: Seq<ActionSpec>) -> nat
    decreases sent.len(),
{
    if sent.len() == 0 {
        0
    } else {
        resets(sent.drop_last()) + if sent.last() == ActionSpec::Write(frame(CMD0, 0)) {
            1nat
        } else {
            0nat
        }
    }
}

proof fn lemma_resets_concat(a: Seq<ActionSpec>, b: Seq<ActionSpec>)
    ensures
        resets(a + b) == resets(a) + resets(b),
    decreases b.len(),
{
    if b.len() == 0 {
        assert(a + b =~= a);
    } else {
        assert((a + b).drop_last() =~= a + b.drop_last());
        lemma_resets_concat(a, b.drop_last());
    }
}

proof fn lemma_resets_one(action: ActionSpec)
    ensures
        resets(seq![action]) == if action == ActionSpec::Write(frame(CMD0, 0)) {
            1nat
        } else {
            0nat
        },
{
    assert(seq![action].drop_last() =~= Seq::<ActionSpec>::empty());
    reveal_with_fuel(resets, 2);
}

proof fn lemma_silent_ask<T>(action: ActionSpec, replies: Seq<ReplySpec>, next: Run<T>)
    requires
        silent(Run::ask(action, replies, next).sent, replies),
        replies.len() > 0,
    ensures
        replies.first() == silence(action),
        silent(next.sent, replies.drop_first()),
        resets(Run::ask(action, replies, next).sent) == resets(seq![action]) + resets(next.sent),
{
    let run = Run::ask(action, replies, next);
    assert(run.sent[0] == action);
    assert(replies[0] == silence(run.sent[0]));
    let rest = replies.drop_first();
    assert forall|i: int|
        0 <= i < next.sent.len() && i < rest.len() implies #[trigger] rest[i] == silence(
        next.sent[i],
    ) by {
        assert(replies[i + 1] == silence(run.sent[i + 1]));
    }
    lemma_resets_concat(seq![action], next.sent);
}

proof fn lemma_silent_followed<T, U>(
    first: Run<T>,
    next: Run<U>,
    replies: Seq<ReplySpec>,
    most: nat,
)
    requires
        first.paced(replies, most),
        first.end is Some,
        silent(first.followed_by(next).sent, replies),
    ensures
        silent(first.sent, replies),
        silent(next.sent, first.tail()),
        resets(first.followed_by(next).sent) == resets(first.sent) + resets(next.sent),
{
    let run = first.followed_by(next);
    let k = first.sent.len() as int;
    assert forall|i: int|
        0 <= i < first.sent.len() && i < replies.len() implies #[trigger] replies[i] == silence(
        first.sent[i],
    ) by {
        assert(replies[i] == silence(run.sent[i]));
    }
    assert forall|i: int|
        0 <= i < next.sent.len() && i < first.tail().len() implies #[trigger] first.tail()[i]
        == silence(next.sent[i]) by {
        assert(replies[i + k] == silence(run.sent[i + k]));
    }
    lemma_resets_concat(first.sent, next.sent);
}

proof fn lemma_silent_poll(until: Until, left: nat, timeout: Error, replies: Seq<ReplySpec>)
    requires
        !until.hit(0xFF),
        silent(poll_run(until, left, timeout, replies).sent, replies),
        poll_run(until, left, timeout, replies).end is Some,
    ensures
        poll_run(until, left, timeout, replies).value() == Err::<u8, Error>(timeout),
        resets(poll_run(until, left, timeout, replies).sent) == 0,
    decreases left,
{
    let rest = replies.drop_first();
    let after = poll_byte(until, left, timeout, replies.first(), rest);
    lemma_silent_ask(ActionSpec::Transfer(0xFF), replies, after);
    lemma_resets_one(ActionSpec::Transfer(0xFF));
    assert(frame(CMD0, 0).len() == 6);
    if left > 0 {
        let again = poll_run(until, (left - 1) as nat, timeout, rest.drop_first());
        assert(after == Run::ask(ActionSpec::DelayUs(TICK_US), rest, again));
        lemma_silent_ask(ActionSpec::DelayUs(TICK_US), rest, again);
        lemma_resets_one(ActionSpec::DelayUs(TICK_US));
        lemma_silent_poll(until, (left - 1) as nat, timeout, rest.drop_first());
    } else {
        assert(resets(after.sent) == 0);
    }
}

proof fn lemma_silent_flush(count: nat, replies: Seq<ReplySpec>)
    requires
        silent(flush_run(count, replies).sent, replies),
        flush_run(count, replies).end is Some,
    ensures
        flush_run(count, replies).value() == Ok::<(), Error>(()),
        resets(flush_run(count, replies).sent) == 0,
    decreases count,
{
    if count > 0 {
        let rest = replies.drop_first();
        let after = flush_byte(count, replies.first(), rest);
        lemma_silent_ask(ActionSpec::Transfer(0xFF), replies, after);
        lemma_resets_one(ActionSpec::Transfer(0xFF));
        assert(after == flush_run((count - 1) as nat, rest));
        lemma_silent_flush((count - 1) as nat, rest);
    }
}

proof fn lemma_silent_reset_command(replies: Seq<ReplySpec>)
    requires
        silent(command_run(CMD0, 0, replies).sent, replies),
        command_run(CMD0, 0, replies).end is Some,
    ensures
        command_run(CMD0, 0, replies).value() == Err::<u8, Error>(Error::TimeoutCommand(CMD0)),
        resets(command_run(CMD0, 0, replies).sent) == 1,
{
    reveal(command_run);
    let rest = replies.drop_first();
    let after = command_sent(CMD0, replies.first(), rest);
    assert(command_run(CMD0, 0, replies) == command_send(CMD0, 0, replies));
    lemma_silent_ask(ActionSpec::Write(frame(CMD0, 0)), replies, after);
    lemma_resets_one(ActionSpec::Write(frame(CMD0, 0)));
    assert(after == command_response(CMD0, rest));
    lemma_silent_poll(
        Until::Response,
        DEFAULT_COMMAND_RETRIES as nat,
        Error::TimeoutCommand(CMD0),
        rest,
    );
}

proof fn lemma_silent_reset(use_crc: bool, left: nat, replies: Seq<ReplySpec>)
    requires
        silent(reset_run(use_crc, left, replies).sent, replies),
        reset_run(use_crc, left, replies).end is Some,
    ensures
        reset_run(use_crc, left, replies).value() == Err::<CardType, Error>(Error::CardNotFound),
        resets(reset_run(use_crc, left, replies).sent) == left,
    decreases left,
{
    let run = reset_run(use_crc, left, replies);
    if left > 0 {
        let reset = command_run(CMD0, 0, replies);
        let answered = reset_answered(use_crc, left, reset.value(), reset.tail());
        assert(run == reset_sent(use_crc, left, reset));
        assert(reset_sent(use_crc, left, reset) == reset.followed_by(answered));
        lemma_command_paced(CMD0, 0, replies);
        lemma_silent_followed(reset, answered, replies, COMMAND_MOST as nat);
        lemma_silent_reset_command(replies);
        let flush = flush_run(FLUSH_LEN as nat, reset.tail());
        let retry = reset_retry(use_crc, left, flush.tail());
        let flushed = match flush.value() {
            Ok(()) => retry,
            Err(e) => Run::done(Err(e), flush.tail()),
        };
        assert(answered == reset_flushed(use_crc, left, flush));
        assert(reset_flushed(use_crc, left, flush) == flush.followed_by(flushed));
        lemma_flush_paced(FLUSH_LEN as nat, reset.tail());
        lemma_silent_followed(flush, flushed, reset.tail(), FLUSH_LEN as nat);
        lemma_silent_flush(FLUSH_LEN as nat, reset.tail());
        let rest = flush.tail();
        let again = reset_run(use_crc, (left - 1) as nat, rest.drop_first());
        assert(retry == Run::ask(ActionSpec::DelayUs(TICK_US), rest, again));
        lemma_silent_ask(ActionSpec::DelayUs(TICK_US), rest, again);
        lemma_resets_one(ActionSpec::DelayUs(TICK_US));
        lemma_silent_reset(use_crc, (left - 1) as nat, rest.drop_first());
    }
}

/// A card that never answers is not found, and is asked as often as the
/// options allow. On a bus where every byte reads `0xFF` and nothing fails,
/// an acquisition that comes to an end reports [`Error::CardNotFound`], and
/// the frame of the reset command has been sent `acquire_retries` times:
/// not once more, and not at all if that is zero.
pub proof fn law_silent_card_is_not_found(opts: AcquireOpts, replies: Seq<ReplySpec>)
    requires
        silent(acquire_run(opts, replies).sent, replies),
        acquire_run(opts, replies).end is Some,
    ensures
        acquire_run(opts, replies).value() == Err::<CardType, Error>(Error::CardNotFound),
        resets(acquire_run(opts, replies).sent) == opts.acquire_retries,
{
    reveal(acquire_run);
    let attempt = acquire_inner_run(opts, replies);
    let release = acquire_release(attempt.value(), attempt.tail());
    assert(acquire_run(opts, replies) == attempt.followed_by(release));
    lemma_acquire_inner_paced(opts, replies);
    lemma_silent_followed(
        attempt,
        release,
        replies,
        crate::pace::reset_most(opts.acquire_retries as nat) + 3,
    );
    let r1 = replies.drop_first();
    let r2 = r1.drop_first();
    let r3 = r2.drop_first();
    let wake = ActionSpec::Write(Seq::new(WAKE_LEN as nat, |i: int| 0xFFu8));
    lemma_silent_ask(ActionSpec::CsHigh, replies, acquire_deselected(opts, replies.first(), r1));
    lemma_silent_ask(wake, r1, acquire_woken(opts, r1.first(), r2));
    lemma_silent_ask(ActionSpec::CsLow, r2, acquire_selected(opts, r2.first(), r3));
    lemma_resets_one(ActionSpec::CsHigh);
    lemma_resets_one(ActionSpec::CsLow);
    lemma_resets_one(wake);
    assert(frame(CMD0, 0).len() == 6);
    assert(wake->Write_0.len() == 10);
    lemma_silent_reset(opts.use_crc, opts.acquire_retries as nat, r3);
    let t1 = attempt.tail();
    let t2 = t1.drop_first();
    lemma_silent_ask(ActionSpec::CsHigh, t1, acquire_released(attempt.value(), t1.first(), t2));
    lemma_silent_ask(ActionSpec::Transfer(0xFF), t2, Run::done(attempt.value(), t2.drop_first()));
    lemma_resets_one(ActionSpec::Transfer(0xFF));
}

/// An operation on a card that never answers fails with
/// [`Error::CardNotFound`] after `acquire_retries` reset commands, and
/// leaves the card unknown; a request for the kind of card reports that
/// there is none.
pub proof fn law_silent_card_serves_nothing(
    opts: AcquireOpts,
    request: RequestSpec,
    replies: Seq<ReplySpec>,
)
    requires
        silent(lazy_run(None, opts, request, replies).sent, replies),
        lazy_run(None, opts, request, replies).end is Some,
    ensures
        lazy_run(None, opts, request, replies).value() == (
            unserved(request, Error::CardNotFound),
            None::<CardType>,
        ),
        resets(lazy_run(None, opts, request, replies).sent) == opts.acquire_retries,
{
    let acquisition = acquire_op_run(opts, replies);
    assert(acquisition.sent == acquire_run(opts, replies).sent);
    let run = lazy_run(None, opts, request, replies);
    assert(acquisition.end is Some);
    if acquisition.value() is Err {
        assert(run.sent =~= acquisition.sent);
        law_silent_card_is_not_found(opts, replies);
    } else {
        crate::pace::lemma_acquire_paced(opts, replies);
        let next = match acquisition.value() {
            Ok(OutputSpec::Card(Some(card))) => crate::sdcard::knowing(
                crate::sdcard::request_run(Some(card), opts.use_crc, request, acquisition.tail()),
                Some(card),
            ),
            Ok(_) => Run::done((Err(Error::CardNotFound), None), acquisition.tail()),
            Err(e) => Run::done((unserved(request, e), None), acquisition.tail()),
        };
        lemma_silent_followed(
            acquisition,
            next,
            replies,
            crate::pace::acquire_most(opts.acquire_retries as nat),
        );
        law_silent_card_is_not_found(opts, replies);
    }
}

} // verus!
