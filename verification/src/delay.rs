//! Retry budgets for the polling loops.

use crate::types::Error;
use vstd::prelude::*;

verus! {

/// Retries of a read: at 10 µs each, about 100 ms.
pub const DEFAULT_READ_RETRIES: u32 = 10_000;

/// Retries of a write: at 10 µs each, about 500 ms.
pub const DEFAULT_WRITE_RETRIES: u32 = 50_000;

/// Retries of a command: at 10 µs each, about 100 ms.
pub const DEFAULT_COMMAND_RETRIES: u32 = 10_000;

/// The pause between two polls, in microseconds.
pub const TICK_US: u32 = 10;

/// A budget of retries. Every retry costs one pause of [`TICK_US`]
/// microseconds; when none is left, the wait has timed out.
#[derive(Debug, Copy, Clone, PartialEq, Eq, Structural)]
pub struct Delay {
    retries_left: u32,
}

impl Delay {
    /// The retries that are left.
    pub closed spec fn remaining(self) -> nat {
        self.retries_left as nat
    }

    /// A budget of `max_retries` retries.
    pub fn new(max_retries: u32) -> (delay: Delay)
        ensures
            delay.remaining() == max_retries,
    {
        Delay { retries_left: max_retries }
    }

    /// The budget for a read.
    pub fn new_read() -> (delay: Delay)
        ensures
            delay.remaining() == DEFAULT_READ_RETRIES,
    {
        Delay::new(DEFAULT_READ_RETRIES)
    }

    /// The budget for a write.
    pub fn new_write() -> (delay: Delay)
        ensures
            delay.remaining() == DEFAULT_WRITE_RETRIES,
    {
        Delay::new(DEFAULT_WRITE_RETRIES)
    }

    /// The budget for a command.
    pub fn new_command() -> (delay: Delay)
        ensures
            delay.remaining() == DEFAULT_COMMAND_RETRIES,
    {
        Delay::new(DEFAULT_COMMAND_RETRIES)
    }

    /// The retries that are left.
    pub fn retries_left(&self) -> (left: u32)
        ensures
            left == self.remaining(),
    {
        self.retries_left
    }

    /// Spends one retry. With none left the budget is unchanged and the
    /// result is `err`; otherwise one retry is taken and the caller owes the
    /// bus a pause of [`TICK_US`] microseconds.
    pub fn delay(&mut self, err: Error) -> (res: Result<(), Error>)
        ensures
            old(self).remaining() == 0 ==> res == Err::<(), Error>(err) && *final(self) == *old(
                self,
            ),
            old(self).remaining() > 0 ==> res is Ok && final(self).remaining() == old(
                self,
            ).remaining() - 1,
    {
        if self.retries_left == 0 {
            Err(err)
        } else {
            self.retries_left = self.retries_left - 1;
            Ok(())
        }
    }
}

} // verus!
