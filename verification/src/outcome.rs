//! What an operation hands back when it ends.

use crate::bus::{Action, Run};
use crate::types::{blocks_view, Block, BlockCount, CardType, Error};
use vstd::prelude::*;

verus! {

/// What an operation that succeeded has to report.
#[derive(Debug)]
pub enum Output {
    /// Nothing.
    Unit,
    /// The blocks read.
    Blocks(Vec<Block>),
    /// The payload of the packet read.
    Payload(Vec<u8>),
    /// The number of blocks on the card.
    Count(BlockCount),
    /// The number of bytes on the card.
    Size(u64),
    /// Whether the card can erase single blocks.
    Flag(bool),
    /// The kind of card, if one was found.
    Card(Option<CardType>),
}

/// An [`Output`] as a mathematical value.
pub enum OutputSpec {
    Unit,
    Blocks(Seq<Seq<u8>>),
    Payload(Seq<u8>),
    Count(u32),
    Size(u64),
    Flag(bool),
    Card(Option<CardType>),
}

impl View for Output {
    type V = OutputSpec;

    open spec fn view(&self) -> OutputSpec {
        match self {
            Output::Unit => OutputSpec::Unit,
            Output::Blocks(blocks) => OutputSpec::Blocks(blocks_view(blocks@)),
            Output::Payload(bytes) => OutputSpec::Payload(bytes@),
            Output::Count(count) => OutputSpec::Count(count.0),
            Output::Size(bytes) => OutputSpec::Size(*bytes),
            Output::Flag(flag) => OutputSpec::Flag(*flag),
            Output::Card(card) => OutputSpec::Card(*card),
        }
    }
}

/// The end of an operation as a mathematical value.
pub type Outcome = Result<OutputSpec, Error>;

/// The end of an operation as a mathematical value.
pub open spec fn outcome_view(res: Result<Output, Error>) -> Outcome {
    match res {
        Ok(output) => Ok(output@),
        Err(e) => Err(e),
    }
}

/// Where an operation stands after it was started or resumed: it waits for
/// the reply to an action, or it has ended.
#[derive(Debug)]
pub enum Step {
    /// The operation waits for the reply to this action.
    Need(Action),
    /// The operation has ended, with this result.
    Done(Result<Output, Error>),
}

/// A conversation that ends without a report, as one of an operation.
pub open spec fn as_unit(run: Run<Result<(), Error>>) -> Run<Outcome> {
    Run {
        sent: run.sent,
        end: match run.end {
            None => None,
            Some((Ok(_), replies)) => Some((Ok(OutputSpec::Unit), replies)),
            Some((Err(e), replies)) => Some((Err(e), replies)),
        },
    }
}

/// A conversation that ends with blocks, as one of an operation.
pub open spec fn as_blocks(run: Run<Result<Seq<Seq<u8>>, Error>>) -> Run<Outcome> {
    Run {
        sent: run.sent,
        end: match run.end {
            None => None,
            Some((Ok(blocks), replies)) => Some((Ok(OutputSpec::Blocks(blocks)), replies)),
            Some((Err(e), replies)) => Some((Err(e), replies)),
        },
    }
}

/// A conversation that ends with a payload, as one of an operation.
pub open spec fn as_payload(run: Run<Result<Seq<u8>, Error>>) -> Run<Outcome> {
    Run {
        sent: run.sent,
        end: match run.end {
            None => None,
            Some((Ok(bytes), replies)) => Some((Ok(OutputSpec::Payload(bytes)), replies)),
            Some((Err(e), replies)) => Some((Err(e), replies)),
        },
    }
}

/// A conversation that ends with the kind of the card, as one of an
/// operation.
pub open spec fn as_card(run: Run<Result<CardType, Error>>) -> Run<Outcome> {
    Run {
        sent: run.sent,
        end: match run.end {
            None => None,
            Some((Ok(card), replies)) => Some((Ok(OutputSpec::Card(Some(card))), replies)),
            Some((Err(e), replies)) => Some((Err(e), replies)),
        },
    }
}

} // verus!
