//! The SD card protocol over SPI, as a verified protocol engine.
//!
//! The engine performs no I/O. Every operation is a machine: it names the
//! next thing to do on the bus (an [`Action`]: drive chip-select, exchange
//! bytes, pause) and is resumed with what came of it (a [`Reply`]), until
//! it has a result. Whoever owns the SPI device, the chip-select pin and
//! the timer runs that loop.
//!
//! What an operation does is stated as its *run*: the actions that it
//! issues and the result that it reaches, as a function of the replies that
//! come back (see [`bus::Run`]). The runs are written as one reads the
//! protocol: [`command::command_run`] is a command and its response,
//! [`data::read_data_run`] a data packet, [`acquire::acquire_run`] the
//! acquisition of a card, and so on up to the operations of the block
//! device in [`sdcard`]. Every machine is proved to follow its run: where
//! it is started, the run is the first action followed by what the machine
//! does next; where it is resumed, what it does next is the next action
//! followed by what the resumed machine does, or the result.
//!
//! What is true of every run, whatever the bus replies, stands in [`laws`]
//! (chip-select, the card that is known, checksums), [`pace`] (every
//! operation ends), [`silent`] (a bus without a card) and [`wire`] (the
//! commands and payloads that go over the wire). [`store`] says what is
//! asked of a card, and that what was written is then read back.

pub mod acquire;
pub mod bus;
pub mod command;
pub mod data;
pub mod delay;
pub mod inner;
pub mod laws;
pub mod multiblock;
pub mod outcome;
pub mod pace;
pub mod poll;
pub mod proto;
pub mod register;
pub mod sdcard;
pub mod silent;
pub mod store;
pub mod transaction;
pub mod transfer;
pub mod types;
pub mod wire;

pub use crate::bus::{Action, Reply};
pub use crate::delay::Delay;
pub use crate::multiblock::SdCardMultiBlockWriteRead;
pub use crate::outcome::{Output, Step};
pub use crate::sdcard::SdCard;
pub use crate::types::{
    AcquireOpts, Block, BlockCount, BlockIdx, CardType, DummyCsPin, Error,
};
