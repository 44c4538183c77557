//! A card that keeps what it is sent and sends what it keeps.
//!
//! The card is not part of this library, and nothing here runs it. This
//! module says what is asked of it, over what goes over the wire, and what
//! then holds of the driver: what was written is read back.

use crate::bus::{ActionSpec, ReplySpec};
use crate::command::frame;
use crate::inner::wire_address;
use crate::outcome::OutputSpec;
use crate::proto::{ACMD23, CMD12, CMD13, CMD17, CMD18, CMD24, CMD25, CMD55};
use crate::sdcard::{lazy_run, RequestSpec};
use crate::types::{AcquireOpts, CardType, Error, BLOCK_LEN};
use crate::multiblock::{session_write_run, State};
use crate::wire::{
    law_prepare_write_commands, law_session_transfers,
    law_read_commands, law_read_hands_back_what_arrived, law_read_yields_as_many_as_asked,
    law_write_commands,
    law_write_puts_the_blocks_on_the_wire, received, written, FRAME_LEN,
};
use vstd::prelude::*;

verus! {

/// What a card holds: for every block, its bytes.
pub type Store = Map<int, Seq<u8>>;

/// The block that a wire address stands for on a card of this kind: the
/// address itself on a high-capacity card, the block that the byte at that
/// offset lies in on any other.
pub open spec fn block_of(card: CardType, arg: u32) -> int {
    match card {
        CardType::SDHC => arg as int,
        _ => arg as int / 512,
    }
}

/// Whether the wire address of the block `start` on a card of this kind
/// stands for that block: always on a high-capacity card, and on any other
/// as far as 32 bits hold the offset of the block.
pub open spec fn addressable(card: CardType, start: u32) -> bool {
    card == CardType::SDHC || start <= 0x7F_FFFF
}

/// The store after `payloads` have been put into the blocks from `at` on.
pub open spec fn stored(store: Store, at: int, payloads: Seq<Seq<u8>>) -> Store {
    Map::new(
        |block: int| true,
        |block: int|
            if at <= block < at + payloads.len() {
                payloads[block - at]
            } else {
                store[block]
            },
    )
}

/// What the store holds in the `count` blocks from `at` on.
pub open spec fn fetched(store: Store, at: int, count: nat) -> Seq<Seq<u8>> {
    Seq::new(count, |i: int| store[at + i])
}

/// Whether a card of this kind that held `before` holds `after` once the
/// write conversation `sent` is over: it has put the blocks that came over
/// the wire, in order, where the write command on the wire said.
pub open spec fn keeps(card: CardType, before: Store, after: Store, sent: Seq<ActionSpec>) -> bool {
    let frames = written(sent, FRAME_LEN as nat);
    let kept = |arg: u32| stored(before, block_of(card, arg), written(sent, BLOCK_LEN as nat));
    &&& forall|arg: u32| frames.contains(#[trigger] frame(CMD24, arg)) ==> after == kept(arg)
    &&& forall|arg: u32| frames.contains(#[trigger] frame(CMD25, arg)) ==> after == kept(arg)
}

/// Whether a card of this kind that holds `store` has answered the read
/// conversation `sent` as it should: the blocks that went over the wire are
/// those that it holds from where the read command on the wire said.
pub open spec fn sends(
    card: CardType,
    store: Store,
    sent: Seq<ActionSpec>,
    replies: Seq<ReplySpec>,
) -> bool {
    let frames = written(sent, FRAME_LEN as nat);
    let got = received(sent, replies, BLOCK_LEN as nat);
    let held = |arg: u32| fetched(store, block_of(card, arg), got.len());
    &&& forall|arg: u32| frames.contains(#[trigger] frame(CMD17, arg)) ==> got == held(arg)
    &&& forall|arg: u32| frames.contains(#[trigger] frame(CMD18, arg)) ==> got == held(arg)
}

/// The wire address of a block that is addressable stands for that block.
pub proof fn lemma_address_stands_for_the_block(card: CardType, start: u32)
    requires
        addressable(card, start),
    ensures
        block_of(card, wire_address(card, start)) == start,
{
}

/// What is put into a store is what is fetched from there.
pub proof fn law_store_round_trip(store: Store, at: int, payloads: Seq<Seq<u8>>)
    ensures
        fetched(stored(store, at, payloads), at, payloads.len()) == payloads,
{
    assert(fetched(stored(store, at, payloads), at, payloads.len()) =~= payloads);
}

/// Putting blocks into a store one after the other, each behind the last,
/// is putting them there together.
pub proof fn law_store_one_by_one(
    store: Store,
    at: int,
    first: Seq<Seq<u8>>,
    second: Seq<Seq<u8>>,
)
    ensures
        stored(stored(store, at, first), at + first.len(), second) == stored(
            store,
            at,
            first + second,
        ),
{
    assert(stored(stored(store, at, first), at + first.len(), second) =~= stored(
        store,
        at,
        first + second,
    ));
}

/// What is put into other blocks leaves a range as it was.
pub proof fn law_store_elsewhere(
    store: Store,
    at: int,
    count: nat,
    other: int,
    payloads: Seq<Seq<u8>>,
)
    requires
        at + count <= other || other + payloads.len() <= at,
    ensures
        fetched(stored(store, other, payloads), at, count) == fetched(store, at, count),
{
    assert(fetched(stored(store, other, payloads), at, count) =~= fetched(store, at, count));
}

/// What is written is read back. If a write of `blocks` from the block
/// `start` on ends well on a card that keeps what it is sent, and a read of
/// as many blocks from there ends well on that card, which sends what it
/// keeps, the read yields `blocks`: for any number of blocks, one, two
/// and eight among them.
pub proof fn law_write_then_read(
    card: CardType,
    opts: AcquireOpts,
    blocks: Seq<Seq<u8>>,
    start: u32,
    before: Store,
    after: Store,
    writing: Seq<ReplySpec>,
    reading: Seq<ReplySpec>,
)
    requires
        forall|i: int| 0 <= i < blocks.len() ==> (#[trigger] blocks[i]).len() == BLOCK_LEN,
        addressable(card, start),
        lazy_run(
            Some(card),
            opts,
            RequestSpec::Write { blocks, start },
            writing,
        ).end matches Some(((Ok(_), _), _)),
        lazy_run(
            Some(card),
            opts,
            RequestSpec::Read { count: blocks.len(), start },
            reading,
        ).end matches Some(((Ok(_), _), _)),
        keeps(
            card,
            before,
            after,
            lazy_run(Some(card), opts, RequestSpec::Write { blocks, start }, writing).sent,
        ),
        sends(
            card,
            after,
            lazy_run(
                Some(card),
                opts,
                RequestSpec::Read { count: blocks.len(), start },
                reading,
            ).sent,
            reading,
        ),
    ensures
        after == stored(before, start as int, blocks),
        lazy_run(
            Some(card),
            opts,
            RequestSpec::Read { count: blocks.len(), start },
            reading,
        ).value().0 == Ok::<OutputSpec, Error>(OutputSpec::Blocks(blocks)),
{
    lemma_write_keeps(card, opts, blocks, start, before, after, writing);
    lemma_read_sends(card, opts, blocks.len(), start, after, reading);
    law_store_round_trip(before, start as int, blocks);
    law_read_yields_as_many_as_asked(card, opts, blocks.len(), start, reading);
}

/// Writes to other blocks leave a range alone. After a write of `first`
/// from the block `here` on and a write of `second` to blocks that do not
/// overlap with those, both on a card that keeps what it is sent, a read
/// from `here` on that card yields `first`: the second write has changed
/// nothing there.
pub proof fn law_writes_elsewhere_leave_a_range_alone(
    card: CardType,
    opts: AcquireOpts,
    first: Seq<Seq<u8>>,
    here: u32,
    second: Seq<Seq<u8>>,
    there: u32,
    stores: Seq<Store>,
    writing: Seq<ReplySpec>,
    overwriting: Seq<ReplySpec>,
    reading: Seq<ReplySpec>,
)
    requires
        forall|i: int| 0 <= i < first.len() ==> (#[trigger] first[i]).len() == BLOCK_LEN,
        forall|i: int| 0 <= i < second.len() ==> (#[trigger] second[i]).len() == BLOCK_LEN,
        addressable(card, here),
        addressable(card, there),
        here + first.len() <= there || there + second.len() <= here,
        stores.len() == 3,
        lazy_run(
            Some(card),
            opts,
            RequestSpec::Write { blocks: first, start: here },
            writing,
        ).end matches Some(((Ok(_), _), _)),
        lazy_run(
            Some(card),
            opts,
            RequestSpec::Write { blocks: second, start: there },
            overwriting,
        ).end matches Some(((Ok(_), _), _)),
        lazy_run(
            Some(card),
            opts,
            RequestSpec::Read { count: first.len(), start: here },
            reading,
        ).end matches Some(((Ok(_), _), _)),
        keeps(
            card,
            stores[0],
            stores[1],
            lazy_run(
                Some(card),
                opts,
                RequestSpec::Write { blocks: first, start: here },
                writing,
            ).sent,
        ),
        keeps(
            card,
            stores[1],
            stores[2],
            lazy_run(
                Some(card),
                opts,
                RequestSpec::Write { blocks: second, start: there },
                overwriting,
            ).sent,
        ),
        sends(
            card,
            stores[2],
            lazy_run(
                Some(card),
                opts,
                RequestSpec::Read { count: first.len(), start: here },
                reading,
            ).sent,
            reading,
        ),
    ensures
        lazy_run(
            Some(card),
            opts,
            RequestSpec::Read { count: first.len(), start: here },
            reading,
        ).value().0 == Ok::<OutputSpec, Error>(OutputSpec::Blocks(first)),
{
    lemma_write_keeps(card, opts, first, here, stores[0], stores[1], writing);
    lemma_write_keeps(card, opts, second, there, stores[1], stores[2], overwriting);
    lemma_read_sends(card, opts, first.len(), here, stores[2], reading);
    law_read_yields_as_many_as_asked(card, opts, first.len(), here, reading);
    law_store_elsewhere(stores[1], here as int, first.len(), there as int, second);
    law_store_round_trip(stores[0], here as int, first);
}

/// One by one or together, the card holds the same. Where each of `blocks`
/// is written alone to its own place, one after the other from the block
/// `start` on, on a card that keeps what it is sent, the card holds at the
/// end what it holds after one write of all of them from `start` on.
pub proof fn law_one_by_one_or_together(
    card: CardType,
    opts: AcquireOpts,
    blocks: Seq<Seq<u8>>,
    start: u32,
    stores: Seq<Store>,
    alone: Seq<Seq<ReplySpec>>,
    upto: nat,
)
    requires
        forall|i: int| 0 <= i < blocks.len() ==> (#[trigger] blocks[i]).len() == BLOCK_LEN,
        1 <= upto <= blocks.len(),
        stores.len() == blocks.len() + 1,
        alone.len() == blocks.len(),
        start + blocks.len() <= u32::MAX,
        forall|i: int| 0 <= i < blocks.len() ==> addressable(card, #[trigger] ((start + i) as u32)),
        forall|i: int|
            0 <= i < blocks.len() ==> (#[trigger] lazy_run(
                Some(card),
                opts,
                RequestSpec::Write { blocks: seq![blocks[i]], start: (start + i) as u32 },
                alone[i],
            )).end matches Some(((Ok(_), _), _)),
        forall|i: int|
            0 <= i < blocks.len() ==> keeps(
                card,
                stores[i],
                stores[i + 1],
                (#[trigger] lazy_run(
                    Some(card),
                    opts,
                    RequestSpec::Write { blocks: seq![blocks[i]], start: (start + i) as u32 },
                    alone[i],
                )).sent,
            ),
    ensures
        stores[upto as int] == stored(stores[0], start as int, blocks.take(upto as int)),
    decreases upto,
{
    let i = (upto - 1) as int;
    let single = seq![blocks[i]];
    let run = lazy_run(
        Some(card),
        opts,
        RequestSpec::Write { blocks: single, start: (start + i) as u32 },
        alone[i],
    );
    assert(addressable(card, (start + i) as u32));
    lemma_write_keeps(card, opts, single, (start + i) as u32, stores[i], stores[i + 1], alone[i]);
    if upto == 1 {
        assert(single =~= blocks.take(1));
    } else {
        law_one_by_one_or_together(card, opts, blocks, start, stores, alone, i as nat);
        law_store_one_by_one(stores[0], start as int, blocks.take(i), single);
        assert(blocks.take(i) + single =~= blocks.take(upto as int));
    }
}

/// What a session writes is read back. Where a multiple-block write is
/// opened at the block `start`, on a card that is known and keeps what it
/// is sent from where the write command said, and every one of `blocks` is
/// written well in the session, each has gone over the wire unchanged; a
/// read of as many blocks from `start` on that card, once the session is
/// closed, yields `blocks`.
pub proof fn law_session_write_then_read(
    card: CardType,
    opts: AcquireOpts,
    blocks: Seq<Seq<u8>>,
    start: u32,
    before: Store,
    after: Store,
    opening: Seq<ReplySpec>,
    writing: Seq<Seq<ReplySpec>>,
    reading: Seq<ReplySpec>,
)
    requires
        forall|i: int| 0 <= i < blocks.len() ==> (#[trigger] blocks[i]).len() == BLOCK_LEN,
        blocks.len() <= u32::MAX,
        addressable(card, start),
        writing.len() == blocks.len(),
        lazy_run(
            Some(card),
            opts,
            RequestSpec::PrepareWrite { start, len: blocks.len() as u32 },
            opening,
        ).end matches Some(((Ok(_), _), _)),
        forall|i: int|
            0 <= i < blocks.len() ==> (#[trigger] session_write_run(
                State::Write,
                Some(card),
                opts.use_crc,
                blocks[i],
                writing[i],
            )).end matches Some(((Ok(_), _), _)),
        forall|arg: u32|
            written(
                lazy_run(
                    Some(card),
                    opts,
                    RequestSpec::PrepareWrite { start, len: blocks.len() as u32 },
                    opening,
                ).sent,
                FRAME_LEN as nat,
            ).contains(#[trigger] frame(CMD25, arg)) ==> after == stored(
                before,
                block_of(card, arg),
                Seq::new(
                    blocks.len(),
                    |i: int|
                        written(
                            session_write_run(
                                State::Write,
                                Some(card),
                                opts.use_crc,
                                blocks[i],
                                writing[i],
                            ).sent,
                            BLOCK_LEN as nat,
                        )[0],
                ),
            ),
        lazy_run(
            Some(card),
            opts,
            RequestSpec::Read { count: blocks.len(), start },
            reading,
        ).end matches Some(((Ok(_), _), _)),
        sends(
            card,
            after,
            lazy_run(
                Some(card),
                opts,
                RequestSpec::Read { count: blocks.len(), start },
                reading,
            ).sent,
            reading,
        ),
    ensures
        after == stored(before, start as int, blocks),
        lazy_run(
            Some(card),
            opts,
            RequestSpec::Read { count: blocks.len(), start },
            reading,
        ).value().0 == Ok::<OutputSpec, Error>(OutputSpec::Blocks(blocks)),
{
    let arg = wire_address(card, start);
    let opened = lazy_run(
        Some(card),
        opts,
        RequestSpec::PrepareWrite { start, len: blocks.len() as u32 },
        opening,
    );
    law_prepare_write_commands(card, opts, start, blocks.len() as u32, opening);
    let frames = written(opened.sent, FRAME_LEN as nat);
    assert(frames[2] == frame(CMD25, arg));
    assert(frames.contains(frame(CMD25, arg)));
    lemma_address_stands_for_the_block(card, start);
    let carried = Seq::new(
        blocks.len(),
        |i: int|
            written(
                session_write_run(
                    State::Write,
                    Some(card),
                    opts.use_crc,
                    blocks[i],
                    writing[i],
                ).sent,
                BLOCK_LEN as nat,
            )[0],
    );
    assert forall|i: int| 0 <= i < blocks.len() implies carried[i] == blocks[i] by {
        law_session_transfers(Some(card), opts.use_crc, blocks[i], 0, writing[i]);
    }
    assert(carried =~= blocks);
    lemma_read_sends(card, opts, blocks.len(), start, after, reading);
    law_read_yields_as_many_as_asked(card, opts, blocks.len(), start, reading);
    law_store_round_trip(before, start as int, blocks);
}

proof fn lemma_frame_tells(cmd: u8, arg: u32, other_cmd: u8, other_arg: u32)
    requires
        frame(cmd, arg) == frame(other_cmd, other_arg),
    ensures
        arg == other_arg,
        0x40 | cmd == 0x40 | other_cmd,
{
    let a = frame(cmd, arg);
    let b = frame(other_cmd, other_arg);
    assert(a[0] == b[0] && a[1] == b[1] && a[2] == b[2] && a[3] == b[3] && a[4] == b[4]);
    let x = arg;
    let y = other_arg;
    assert(x == y) by (bit_vector)
        requires
            (x / 0x100_0000) % 0x100 == (y / 0x100_0000) % 0x100,
            (x / 0x1_0000) % 0x100 == (y / 0x1_0000) % 0x100,
            (x / 0x100) % 0x100 == (y / 0x100) % 0x100,
            x % 0x100 == y % 0x100,
    ;
}

proof fn lemma_commands_differ()
    ensures
        0x40u8 | CMD24 != 0x40u8 | CMD13,
        0x40u8 | CMD24 != 0x40u8 | CMD25,
        0x40u8 | CMD24 != 0x40u8 | CMD55,
        0x40u8 | CMD24 != 0x40u8 | ACMD23,
        0x40u8 | CMD25 != 0x40u8 | CMD13,
        0x40u8 | CMD25 != 0x40u8 | CMD55,
        0x40u8 | CMD25 != 0x40u8 | ACMD23,
        0x40u8 | CMD17 != 0x40u8 | CMD18,
        0x40u8 | CMD17 != 0x40u8 | CMD12,
        0x40u8 | CMD18 != 0x40u8 | CMD12,
{
    assert(0x40u8 | 0x18 == 0x58 && 0x40u8 | 0x0D == 0x4D && 0x40u8 | 0x19 == 0x59 && 0x40u8 | 0x37
        == 0x77 && 0x40u8 | 0x17 == 0x57 && 0x40u8 | 0x11 == 0x51 && 0x40u8 | 0x12 == 0x52 && 0x40u8
        | 0x0C == 0x4C) by (bit_vector);
}

/// There are such cards. The card that holds, after a write that ended
/// well, the blocks of the write from its first block on keeps what it was
/// sent; and a read that was answered with what a card holds from the first
/// block on was answered as it should.
pub proof fn law_such_a_card_can_be(
    card: CardType,
    opts: AcquireOpts,
    blocks: Seq<Seq<u8>>,
    start: u32,
    store: Store,
    writing: Seq<ReplySpec>,
    reading: Seq<ReplySpec>,
)
    requires
        forall|i: int| 0 <= i < blocks.len() ==> (#[trigger] blocks[i]).len() == BLOCK_LEN,
        addressable(card, start),
    ensures
        ({
            let write = lazy_run(Some(card), opts, RequestSpec::Write { blocks, start }, writing);
            write.end matches Some(((Ok(_), _), _)) ==> keeps(
                card,
                store,
                stored(store, start as int, blocks),
                write.sent,
            )
        }),
        ({
            let read = lazy_run(
                Some(card),
                opts,
                RequestSpec::Read { count: blocks.len(), start },
                reading,
            );
            let got = received(read.sent, reading, BLOCK_LEN as nat);
            read.end matches Some(((Ok(_), _), _)) && got == fetched(
                store,
                start as int,
                got.len(),
            ) ==> sends(card, store, read.sent, reading)
        }),
{
    let arg = wire_address(card, start);
    lemma_address_stands_for_the_block(card, start);
    lemma_commands_differ();
    let write = lazy_run(Some(card), opts, RequestSpec::Write { blocks, start }, writing);
    if write.end is Some && write.value().0 is Ok {
        law_write_commands(card, opts, blocks, start, writing);
        law_write_puts_the_blocks_on_the_wire(card, opts, blocks, start, writing);
        let frames = written(write.sent, FRAME_LEN as nat);
        assert forall|other: u32| frames.contains(#[trigger] frame(CMD24, other)) implies other
            == arg by {
            let i = choose|i: int| 0 <= i < frames.len() && frames[i] == frame(CMD24, other);
            if blocks.len() == 1 {
                if i == 0 {
                    lemma_frame_tells(CMD24, other, CMD24, arg);
                } else {
                    lemma_frame_tells(CMD24, other, CMD13, 0);
                }
            } else {
                if i == 0 {
                    lemma_frame_tells(CMD24, other, CMD55, 0);
                } else if i == 1 {
                    lemma_frame_tells(CMD24, other, ACMD23, blocks.len() as u32);
                } else {
                    lemma_frame_tells(CMD24, other, CMD25, arg);
                }
            }
        }
        assert forall|other: u32| frames.contains(#[trigger] frame(CMD25, other)) implies other
            == arg by {
            let i = choose|i: int| 0 <= i < frames.len() && frames[i] == frame(CMD25, other);
            if blocks.len() == 1 {
                if i == 0 {
                    lemma_frame_tells(CMD25, other, CMD24, arg);
                } else {
                    lemma_frame_tells(CMD25, other, CMD13, 0);
                }
            } else {
                if i == 0 {
                    lemma_frame_tells(CMD25, other, CMD55, 0);
                } else if i == 1 {
                    lemma_frame_tells(CMD25, other, ACMD23, blocks.len() as u32);
                } else {
                    lemma_frame_tells(CMD25, other, CMD25, arg);
                }
            }
        }
    }
    let read = lazy_run(
        Some(card),
        opts,
        RequestSpec::Read { count: blocks.len(), start },
        reading,
    );
    if read.end is Some && read.value().0 is Ok {
        law_read_commands(card, opts, blocks.len(), start, reading);
        let frames = written(read.sent, FRAME_LEN as nat);
        assert forall|other: u32| frames.contains(#[trigger] frame(CMD17, other)) implies other
            == arg by {
            let i = choose|i: int| 0 <= i < frames.len() && frames[i] == frame(CMD17, other);
            if blocks.len() == 1 {
                lemma_frame_tells(CMD17, other, CMD17, arg);
            } else {
                if i == 0 {
                    lemma_frame_tells(CMD17, other, CMD18, arg);
                } else {
                    lemma_frame_tells(CMD17, other, CMD12, 0);
                }
            }
        }
        assert forall|other: u32| frames.contains(#[trigger] frame(CMD18, other)) implies other
            == arg by {
            let i = choose|i: int| 0 <= i < frames.len() && frames[i] == frame(CMD18, other);
            if blocks.len() == 1 {
                lemma_frame_tells(CMD18, other, CMD17, arg);
            } else {
                if i == 0 {
                    lemma_frame_tells(CMD18, other, CMD18, arg);
                } else {
                    lemma_frame_tells(CMD18, other, CMD12, 0);
                }
            }
        }
    }
}

proof fn lemma_write_keeps(
    card: CardType,
    opts: AcquireOpts,
    blocks: Seq<Seq<u8>>,
    start: u32,
    before: Store,
    after: Store,
    writing: Seq<ReplySpec>,
)
    requires
        forall|i: int| 0 <= i < blocks.len() ==> (#[trigger] blocks[i]).len() == BLOCK_LEN,
        addressable(card, start),
        lazy_run(
            Some(card),
            opts,
            RequestSpec::Write { blocks, start },
            writing,
        ).end matches Some(((Ok(_), _), _)),
        keeps(
            card,
            before,
            after,
            lazy_run(Some(card), opts, RequestSpec::Write { blocks, start }, writing).sent,
        ),
    ensures
        after == stored(before, start as int, blocks),
{
    let run = lazy_run(Some(card), opts, RequestSpec::Write { blocks, start }, writing);
    let arg = wire_address(card, start);
    law_write_commands(card, opts, blocks, start, writing);
    law_write_puts_the_blocks_on_the_wire(card, opts, blocks, start, writing);
    lemma_address_stands_for_the_block(card, start);
    let frames = written(run.sent, FRAME_LEN as nat);
    if blocks.len() == 1 {
        assert(frames[0] == frame(CMD24, arg));
        assert(frames.contains(frame(CMD24, arg)));
    } else {
        assert(frames[2] == frame(CMD25, arg));
        assert(frames.contains(frame(CMD25, arg)));
    }
}

proof fn lemma_read_sends(
    card: CardType,
    opts: AcquireOpts,
    count: nat,
    start: u32,
    store: Store,
    reading: Seq<ReplySpec>,
)
    requires
        addressable(card, start),
        lazy_run(
            Some(card),
            opts,
            RequestSpec::Read { count, start },
            reading,
        ).end matches Some(((Ok(_), _), _)),
        sends(
            card,
            store,
            lazy_run(Some(card), opts, RequestSpec::Read { count, start }, reading).sent,
            reading,
        ),
    ensures
        ({
            let run = lazy_run(Some(card), opts, RequestSpec::Read { count, start }, reading);
            let got = received(run.sent, reading, BLOCK_LEN as nat);
            &&& run.value().0 == Ok::<OutputSpec, Error>(OutputSpec::Blocks(got))
            &&& got == fetched(store, start as int, got.len())
        }),
{
    let run = lazy_run(Some(card), opts, RequestSpec::Read { count, start }, reading);
    let arg = wire_address(card, start);
    law_read_commands(card, opts, count, start, reading);
    law_read_hands_back_what_arrived(card, opts, count, start, reading);
    lemma_address_stands_for_the_block(card, start);
    let frames = written(run.sent, FRAME_LEN as nat);
    if count == 1 {
        assert(frames[0] == frame(CMD17, arg));
        assert(frames.contains(frame(CMD17, arg)));
    } else {
        assert(frames[0] == frame(CMD18, arg));
        assert(frames.contains(frame(CMD18, arg)));
    }
}

} // verus!
