//! The plain values that the driver exchanges with its callers.

use vstd::prelude::*;

verus! {

/// Everything that can go wrong while talking to a card.
#[derive(Debug, Copy, Clone, PartialEq, Eq, Structural)]
pub enum Error {
    /// The SPI peripheral reported an error.
    Transport,
    /// The card did not accept being switched to CRC mode.
    CantEnableCRC,
    /// No data token arrived while waiting to read a buffer.
    TimeoutReadBuffer,
    /// The card stayed busy for longer than allowed.
    TimeoutWaitNotBusy,
    /// No response arrived to this command.
    TimeoutCommand(u8),
    /// No acceptable response arrived to this application-specific command.
    TimeoutACommand(u8),
    /// The card answered command 58 with an error.
    Cmd58Error,
    /// The card-specific data register could not be read.
    RegisterReadError,
    /// The checksum sent by the card (first) differs from the one computed
    /// over the payload (second).
    CrcError(u16, u16),
    /// The card sent something other than a data token.
    ReadError,
    /// The card did not accept the data written to it.
    WriteError,
    /// The operation is not possible in the current state.
    BadState,
    /// No card answered.
    CardNotFound,
    /// The chip-select pin could not be driven.
    GpioError,
}

/// The kinds of card the driver can talk to.
#[derive(Debug, Copy, Clone, PartialEq, Eq, Structural)]
pub enum CardType {
    /// A standard-capacity card of version 1.x, addressed by byte.
    SD1,
    /// A standard-capacity card of version 2.x, addressed by byte.
    SD2,
    /// A high-capacity card, addressed by block.
    SDHC,
}

/// Options for acquiring the card.
#[derive(Debug, Copy, Clone)]
pub struct AcquireOpts {
    /// Verify the CRC-16 of every data payload, and switch the card to CRC
    /// mode while acquiring it.
    pub use_crc: bool,
    /// How many times at most the reset command is sent before acquisition
    /// gives up with [`Error::CardNotFound`].
    pub acquire_retries: u32,
}

impl Default for AcquireOpts {
    fn default() -> (opts: AcquireOpts)
        ensures
            opts.use_crc,
            opts.acquire_retries == 50,
    {
        AcquireOpts { use_crc: true, acquire_retries: 50 }
    }
}

/// A chip-select pin that does nothing when it is driven.
///
/// For an SPI device that insists on a chip-select pin of its own: the
/// card needs clock cycles with chip-select high, so the real pin is
/// driven by the actions of the engine, and the SPI device gets this one.
#[derive(Debug, Copy, Clone, PartialEq, Eq, Structural)]
pub struct DummyCsPin;

impl DummyCsPin {
    /// Does nothing, and cannot fail.
    pub fn set_low(&mut self) -> (res: Result<(), Error>)
        ensures
            res is Ok,
            *final(self) == *old(self),
    {
        Ok(())
    }

    /// Does nothing, and cannot fail.
    pub fn set_high(&mut self) -> (res: Result<(), Error>)
        ensures
            res is Ok,
            *final(self) == *old(self),
    {
        Ok(())
    }
}

/// The number of bytes in a block.
pub const BLOCK_LEN: usize = 512;

/// One block of storage.
#[derive(Debug, Copy, Clone)]
pub struct Block {
    /// The bytes of the block.
    pub contents: [u8; 512],
}

impl Block {
    /// A block of zero bytes.
    pub fn new() -> (block: Block)
        ensures
            block.contents@ == Seq::new(BLOCK_LEN as nat, |i: int| 0u8),
    {
        let block = Block { contents: [0u8; 512] };
        assert(block.contents@ =~= Seq::new(BLOCK_LEN as nat, |i: int| 0u8));
        block
    }

    /// The block that holds `bytes`.
    pub fn from_bytes(bytes: &[u8]) -> (block: Block)
        requires
            bytes@.len() == BLOCK_LEN,
        ensures
            block.contents@ == bytes@,
    {
        let mut contents: [u8; 512] = [0u8; 512];
        let mut i: usize = 0;
        while i < 512
            invariant
                i <= 512,
                bytes@.len() == 512,
                forall|j: int| 0 <= j < i ==> contents@[j] == bytes@[j],
            decreases 512 - i,
        {
            contents[i] = bytes[i];
            i = i + 1;
        }
        assert(contents@ =~= bytes@);
        Block { contents }
    }

    /// The bytes of the block.
    pub fn to_vec(&self) -> (bytes: Vec<u8>)
        ensures
            bytes@ == self.contents@,
    {
        let mut bytes: Vec<u8> = Vec::new();
        let mut i: usize = 0;
        while i < 512
            invariant
                i <= 512,
                bytes@.len() == i,
                forall|j: int| 0 <= j < i ==> bytes@[j] == self.contents@[j],
            decreases 512 - i,
        {
            bytes.push(self.contents[i]);
            i = i + 1;
        }
        assert(bytes@ =~= self.contents@);
        bytes
    }
}

/// The payloads of a sequence of blocks.
pub open spec fn blocks_view(blocks: Seq<Block>) -> Seq<Seq<u8>> {
    Seq::new(blocks.len(), |i: int| blocks[i].contents@)
}

/// The index of a block on the card.
#[derive(Debug, Copy, Clone, PartialEq, Eq, Structural)]
pub struct BlockIdx(pub u32);

/// A number of blocks.
#[derive(Debug, Copy, Clone, PartialEq, Eq, Structural)]
pub struct BlockCount(pub u32);

} // verus!
