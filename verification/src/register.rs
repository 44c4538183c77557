//! The card-specific data register, in its two layouts.

use crate::bus::{group_run, Action, Next, Reply, ReplySpec, Run};
use crate::command::{command_run, Command};
use crate::data::{payload_view, read_data_run, DataIn};
use crate::outcome::{Output, OutputSpec};
use crate::proto::CMD9;
use crate::types::{BlockCount, CardType, Error};
use vstd::arithmetic::power2::{lemma2_to64, lemma_pow2_strictly_increases, pow2};
use vstd::bits::lemma_u64_shl_is_mul;
use vstd::prelude::*;

verus! {

broadcast use group_run;

/// The number of bytes in the register.
pub const CSD_LEN: usize = 16;

/// The device size field of layout 1: twelve bits that straddle bytes 6 to
/// 8.
pub open spec fn v1_device_size(data: Seq<u8>) -> nat {
    ((data[6] % 4) * 1024 + data[7] * 4 + data[8] / 64) as nat
}

/// The device size multiplier field of layout 1: three bits that straddle
/// bytes 9 and 10.
pub open spec fn v1_device_size_multiplier(data: Seq<u8>) -> nat {
    ((data[9] % 4) * 2 + data[10] / 128) as nat
}

/// The read block length field of layout 1: the lower half of byte 5.
pub open spec fn v1_read_block_length(data: Seq<u8>) -> nat {
    (data[5] % 16) as nat
}

/// The capacity in bytes that a register of layout 1 stands for:
/// `(device size + 1) * 2^(multiplier + 2) * 2^(read block length)`.
pub open spec fn v1_capacity_bytes(data: Seq<u8>) -> nat {
    (v1_device_size(data) + 1) * pow2(
        v1_device_size_multiplier(data) + v1_read_block_length(data) + 2,
    )
}

/// The device size field of layout 2: twenty-two bits in bytes 7 to 9.
pub open spec fn v2_device_size(data: Seq<u8>) -> nat {
    ((data[7] % 64) * 65536 + data[8] * 256 + data[9]) as nat
}

/// The capacity in bytes that a register of layout 2 stands for:
/// `(device size + 1)` times 512 KiB.
pub open spec fn v2_capacity_bytes(data: Seq<u8>) -> nat {
    (v2_device_size(data) + 1) * 524288
}

/// Whether single blocks can be erased: bit 6 of byte 10, in both layouts.
pub open spec fn erase_single_block(data: Seq<u8>) -> bool {
    (data[10] / 64) % 2 == 1
}

/// A capacity in blocks of 512 bytes, capped at what 32 bits can count.
pub open spec fn blocks_of(bytes: nat) -> u32 {
    if bytes / 512 > u32::MAX {
        u32::MAX
    } else {
        (bytes / 512) as u32
    }
}

fn bytes_to_blocks(bytes: u64) -> (blocks: u32)
    ensures
        blocks == blocks_of(bytes as nat),
{
    let blocks: u64 = bytes / 512;
    if blocks > 0xFFFF_FFFF {
        0xFFFF_FFFF
    } else {
        blocks as u32
    }
}

/// A register in layout 1, as cards of standard capacity report it.
#[derive(Debug, Copy, Clone)]
pub struct CsdV1 {
    /// The bytes of the register, as the card sent them.
    pub data: [u8; 16],
}

/// A register in layout 2, as cards of high capacity report it.
#[derive(Debug, Copy, Clone)]
pub struct CsdV2 {
    /// The bytes of the register, as the card sent them.
    pub data: [u8; 16],
}

/// A register in either layout.
#[derive(Debug, Copy, Clone)]
pub enum Csd {
    /// Layout 1.
    V1(CsdV1),
    /// Layout 2.
    V2(CsdV2),
}

fn copy_register(bytes: &[u8]) -> (data: [u8; 16])
    requires
        bytes@.len() == CSD_LEN,
    ensures
        data@ == bytes@,
{
    let mut data: [u8; 16] = [0u8; 16];
    let mut i: usize = 0;
    while i < 16
        invariant
            i <= 16,
            bytes@.len() == 16,
            forall|j: int| 0 <= j < i ==> data@[j] == bytes@[j],
        decreases 16 - i,
    {
        data[i] = bytes[i];
        i = i + 1;
    }
    assert(data@ =~= bytes@);
    data
}

impl CsdV1 {
    /// A register of zero bytes.
    pub fn new() -> (csd: CsdV1)
        ensures
            csd.data@ == Seq::new(CSD_LEN as nat, |i: int| 0u8),
    {
        let csd = CsdV1 { data: [0u8; 16] };
        assert(csd.data@ =~= Seq::new(CSD_LEN as nat, |i: int| 0u8));
        csd
    }

    /// The register that holds `bytes`.
    pub fn from_bytes(bytes: &[u8]) -> (csd: CsdV1)
        requires
            bytes@.len() == CSD_LEN,
        ensures
            csd.data@ == bytes@,
    {
        CsdV1 { data: copy_register(bytes) }
    }

    /// The device size field.
    pub fn device_size(&self) -> (size: u32)
        ensures
            size == v1_device_size(self.data@),
            size < 4096,
    {
        (self.data[6] % 4) as u32 * 1024 + self.data[7] as u32 * 4 + (self.data[8] / 64) as u32
    }

    /// The device size multiplier field.
    pub fn device_size_multiplier(&self) -> (multiplier: u8)
        ensures
            multiplier == v1_device_size_multiplier(self.data@),
            multiplier < 8,
    {
        (self.data[9] % 4) * 2 + self.data[10] / 128
    }

    /// The read block length field.
    pub fn read_block_length(&self) -> (length: u8)
        ensures
            length == v1_read_block_length(self.data@),
            length < 16,
    {
        self.data[5] % 16
    }

    /// Whether single blocks can be erased.
    pub fn erase_single_block_enabled(&self) -> (enabled: bool)
        ensures
            enabled == erase_single_block(self.data@),
    {
        (self.data[10] / 64) % 2 == 1
    }

    /// The capacity of the card in bytes.
    pub fn card_capacity_bytes(&self) -> (bytes: u64)
        ensures
            bytes == v1_capacity_bytes(self.data@),
    {
        let size: u64 = self.device_size() as u64 + 1;
        let shift: u64 = (self.device_size_multiplier() + self.read_block_length() + 2) as u64;
        proof {
            lemma2_to64();
            lemma_pow2_strictly_increases(shift as nat, 25);
            assert(size * pow2(shift as nat) <= 4096 * 0x200_0000) by (nonlinear_arith)
                requires
                    size <= 4096,
                    pow2(shift as nat) <= 0x200_0000,
            ;
            lemma_u64_shl_is_mul(size, shift);
        }
        size << shift
    }

    /// The capacity of the card in blocks of 512 bytes.
    pub fn card_capacity_blocks(&self) -> (blocks: u32)
        ensures
            blocks == blocks_of(v1_capacity_bytes(self.data@)),
    {
        bytes_to_blocks(self.card_capacity_bytes())
    }
}

impl CsdV2 {
    /// A register of zero bytes, but for the layout number.
    pub fn new() -> (csd: CsdV2)
        ensures
            csd.data@ == Seq::new(CSD_LEN as nat, |i: int| 0u8).update(0, 0x40u8),
    {
        let mut data: [u8; 16] = [0u8; 16];
        data[0] = 0x40;
        let csd = CsdV2 { data };
        assert(csd.data@ =~= Seq::new(CSD_LEN as nat, |i: int| 0u8).update(0, 0x40u8));
        csd
    }

    /// The register that holds `bytes`.
    pub fn from_bytes(bytes: &[u8]) -> (csd: CsdV2)
        requires
            bytes@.len() == CSD_LEN,
        ensures
            csd.data@ == bytes@,
    {
        CsdV2 { data: copy_register(bytes) }
    }

    /// The device size field.
    pub fn device_size(&self) -> (size: u32)
        ensures
            size == v2_device_size(self.data@),
            size < 0x40_0000,
    {
        (self.data[7] % 64) as u32 * 65536 + self.data[8] as u32 * 256 + self.data[9] as u32
    }

    /// Whether single blocks can be erased.
    pub fn erase_single_block_enabled(&self) -> (enabled: bool)
        ensures
            enabled == erase_single_block(self.data@),
    {
        (self.data[10] / 64) % 2 == 1
    }

    /// The capacity of the card in bytes.
    pub fn card_capacity_bytes(&self) -> (bytes: u64)
        ensures
            bytes == v2_capacity_bytes(self.data@),
    {
        (self.device_size() as u64 + 1) * 524288
    }

    /// The capacity of the card in blocks of 512 bytes.
    pub fn card_capacity_blocks(&self) -> (blocks: u32)
        ensures
            blocks == blocks_of(v2_capacity_bytes(self.data@)),
    {
        bytes_to_blocks(self.card_capacity_bytes())
    }
}

impl Csd {
    /// The bytes of the register.
    pub open spec fn bytes(self) -> Seq<u8> {
        match self {
            Csd::V1(csd) => csd.data@,
            Csd::V2(csd) => csd.data@,
        }
    }

    /// The capacity in bytes that the register stands for.
    pub open spec fn capacity_bytes(self) -> nat {
        match self {
            Csd::V1(csd) => v1_capacity_bytes(csd.data@),
            Csd::V2(csd) => v2_capacity_bytes(csd.data@),
        }
    }

    /// The capacity of the card in bytes.
    pub fn card_capacity_bytes(&self) -> (bytes: u64)
        ensures
            bytes == self.capacity_bytes(),
    {
        match self {
            Csd::V1(csd) => csd.card_capacity_bytes(),
            Csd::V2(csd) => csd.card_capacity_bytes(),
        }
    }

    /// The capacity of the card in blocks of 512 bytes.
    pub fn card_capacity_blocks(&self) -> (blocks: u32)
        ensures
            blocks == blocks_of(self.capacity_bytes()),
    {
        match self {
            Csd::V1(csd) => csd.card_capacity_blocks(),
            Csd::V2(csd) => csd.card_capacity_blocks(),
        }
    }

    /// Whether single blocks can be erased.
    pub fn erase_single_block_enabled(&self) -> (enabled: bool)
        ensures
            enabled == erase_single_block(self.bytes()),
    {
        match self {
            Csd::V1(csd) => csd.erase_single_block_enabled(),
            Csd::V2(csd) => csd.erase_single_block_enabled(),
        }
    }
}

/// What is asked of the register.
#[derive(Debug, Copy, Clone, PartialEq, Eq, Structural)]
pub enum Query {
    /// The capacity in blocks.
    Blocks,
    /// The capacity in bytes.
    Bytes,
    /// Whether single blocks can be erased.
    EraseSingleBlock,
}

/// The capacity in bytes that the register bytes of a card of this kind
/// stand for: a card of version 1 reports layout 1, every other layout 2.
pub open spec fn capacity_of(card: CardType, data: Seq<u8>) -> nat {
    match card {
        CardType::SD1 => v1_capacity_bytes(data),
        _ => v2_capacity_bytes(data),
    }
}

/// The answer to `query` that the register bytes of a card of this kind
/// hold.
pub open spec fn answer_of(card: CardType, query: Query, data: Seq<u8>) -> OutputSpec {
    match query {
        Query::Blocks => OutputSpec::Count(blocks_of(capacity_of(card, data))),
        Query::Bytes => OutputSpec::Size(capacity_of(card, data) as u64),
        Query::EraseSingleBlock => OutputSpec::Flag(erase_single_block(data)),
    }
}

/// Reads the answer to `query` off the register bytes of a card of this
/// kind.
pub fn answer(card: CardType, query: Query, data: &[u8]) -> (output: Output)
    requires
        data@.len() == CSD_LEN,
    ensures
        output@ == answer_of(card, query, data@),
{
    let csd = match card {
        CardType::SD1 => Csd::V1(CsdV1::from_bytes(data)),
        _ => Csd::V2(CsdV2::from_bytes(data)),
    };
    match query {
        Query::Blocks => Output::Count(BlockCount(csd.card_capacity_blocks())),
        Query::Bytes => Output::Size(csd.card_capacity_bytes()),
        Query::EraseSingleBlock => Output::Flag(csd.erase_single_block_enabled()),
    }
}

/// Reading the register: without a card there is nothing to ask.
/// Otherwise send the register command, which the card must answer with
/// zero, and read a data packet of sixteen bytes.
#[verifier::opaque]
pub open spec fn read_csd_run(
    card: Option<CardType>,
    use_crc: bool,
    replies: Seq<ReplySpec>,
) -> Run<
    Result<Seq<u8>, Error>,
> {
    match card {
        None => Run::done(Err(Error::CardNotFound), replies),
        Some(_) => read_csd_sent(use_crc, command_run(CMD9, 0, replies)),
    }
}

/// The register command, and the read after it.
pub open spec fn read_csd_sent(use_crc: bool, sent: Run<Result<u8, Error>>) -> Run<
    Result<Seq<u8>, Error>,
> {
    sent.followed_by(
        match sent.value() {
            Err(e) => Run::done(Err(e), sent.tail()),
            Ok(r1) => if r1 != 0 {
                Run::done(Err(Error::RegisterReadError), sent.tail())
            } else {
                read_data_run(CSD_LEN as nat, use_crc, sent.tail())
            },
        },
    )
}

#[derive(Debug)]
enum ReadCsdPhase {
    Sent(Command),
    Data(DataIn),
}

/// A read of the register in progress.
#[derive(Debug)]
pub struct ReadCsd {
    use_crc: bool,
    phase: ReadCsdPhase,
}

impl ReadCsd {
    /// Whether the packet being read has the length of the register.
    pub closed spec fn wf(self) -> bool {
        match self.phase {
            ReadCsdPhase::Data(data) => data.wf() && data.len() == CSD_LEN,
            _ => true,
        }
    }

    /// What the read does once the pending action is answered with `reply`
    /// and `replies` follow.
    pub closed spec fn on(self, reply: ReplySpec, replies: Seq<ReplySpec>) -> Run<
        Result<Seq<u8>, Error>,
    > {
        match self.phase {
            ReadCsdPhase::Sent(sent) => read_csd_sent(self.use_crc, sent.on(reply, replies)),
            ReadCsdPhase::Data(data) => data.on(reply, replies),
        }
    }

    /// Starts a read of the register of a card.
    pub fn start(card: CardType, use_crc: bool) -> (out: (ReadCsd, Action))
        ensures
            out.0.wf(),
            forall|replies: Seq<ReplySpec>|
                #[trigger] read_csd_run(Some(card), use_crc, replies) == Run::ask(
                    out.1@,
                    replies,
                    out.0.on(replies.first(), replies.drop_first()),
                ),
    {
        reveal(read_csd_run);
        let (sent, action) = Command::start(CMD9, 0);
        (ReadCsd { use_crc, phase: ReadCsdPhase::Sent(sent) }, action)
    }

    /// Resumes the read with the reply to its pending action.
    pub fn step(self, reply: Reply) -> (out: Next<ReadCsd, Result<Vec<u8>, Error>>)
        requires
            self.wf(),
        ensures
            out matches Next::Done(Ok(data)) ==> data@.len() == CSD_LEN,
            match out {
                Next::Need(next, action) => next.wf() && forall|replies: Seq<ReplySpec>|
                    #[trigger] self.on(reply@, replies) == Run::ask(
                        action@,
                        replies,
                        next.on(replies.first(), replies.drop_first()),
                    ),
                Next::Done(value) => forall|replies: Seq<ReplySpec>|
                    #[trigger] self.on(reply@, replies) == Run::done(
                        payload_view(value),
                        replies,
                    ),
            },
    {
        let use_crc = self.use_crc;
        match self.phase {
            ReadCsdPhase::Sent(sent) => match sent.step(reply) {
                Next::Need(sent, action) => Next::Need(
                    ReadCsd { use_crc, phase: ReadCsdPhase::Sent(sent) },
                    action,
                ),
                Next::Done(Err(e)) => Next::Done(Err(e)),
                Next::Done(Ok(r1)) => {
                    if r1 != 0 {
                        Next::Done(Err(Error::RegisterReadError))
                    } else {
                        let (data, action) = DataIn::start(CSD_LEN, use_crc);
                        Next::Need(ReadCsd { use_crc, phase: ReadCsdPhase::Data(data) }, action)
                    }
                },
            },
            ReadCsdPhase::Data(data) => match data.step(reply) {
                Next::Need(data, action) => Next::Need(
                    ReadCsd { use_crc, phase: ReadCsdPhase::Data(data) },
                    action,
                ),
                Next::Done(value) => Next::Done(value),
            },
        }
    }
}

} // verus!
