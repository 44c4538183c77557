//! Commands and their responses.

use crate::bus::{group_run, Action, ActionSpec, Next, Reply, ReplySpec, Run};
use crate::delay::{Delay, DEFAULT_COMMAND_RETRIES};
use crate::poll::{poll_run, Poll, Until};
use crate::proto::{crc7, crc7_of, CMD0, CMD12, CMD55};
use crate::types::Error;
use vstd::prelude::*;

verus! {

broadcast use group_run;

/// The six bytes of a command: the start bits and the command index, the
/// argument with its most significant byte first, and the CRC-7 of those
/// five bytes with the stop bit.
pub open spec fn frame(cmd: u8, arg: u32) -> Seq<u8> {
    let head = seq![
        0x40 | cmd,
        ((arg / 0x100_0000) % 0x100) as u8,
        ((arg / 0x1_0000) % 0x100) as u8,
        ((arg / 0x100) % 0x100) as u8,
        (arg % 0x100) as u8,
    ];
    head.push(crc7_of(head))
}

/// Builds the frame of a command.
pub fn command_frame(cmd: u8, arg: u32) -> (bytes: Vec<u8>)
    ensures
        bytes@ == frame(cmd, arg),
{
    assert((arg >> 24) == arg / 0x100_0000 && ((arg >> 24) & 0xFF) == (arg / 0x100_0000) % 0x100
        && ((arg >> 16) & 0xFF) == (arg / 0x1_0000) % 0x100 && ((arg >> 8) & 0xFF) == (arg / 0x100)
        % 0x100 && (arg & 0xFF) == arg % 0x100) by (bit_vector);
    let mut bytes: Vec<u8> = Vec::new();
    bytes.push(0x40 | cmd);
    bytes.push(((arg >> 24) & 0xFF) as u8);
    bytes.push(((arg >> 16) & 0xFF) as u8);
    bytes.push(((arg >> 8) & 0xFF) as u8);
    bytes.push((arg & 0xFF) as u8);
    let ghost head = bytes@;
    let crc = crc7(bytes.as_slice());
    bytes.push(crc);
    proof {
        assert(head =~= seq![
            0x40 | cmd,
            ((arg / 0x100_0000) % 0x100) as u8,
            ((arg / 0x1_0000) % 0x100) as u8,
            ((arg / 0x100) % 0x100) as u8,
            (arg % 0x100) as u8,
        ]);
    }
    bytes
}

/// A command: unless it is the reset or the stop command, wait for the card
/// to release the bus; send the frame; after the stop command discard one
/// byte; poll for the response.
#[verifier::opaque]
pub open spec fn command_run(cmd: u8, arg: u32, replies: Seq<ReplySpec>) -> Run<Result<u8, Error>> {
    if cmd != CMD0 && cmd != CMD12 {
        command_unbusy(
            cmd,
            arg,
            poll_run(
                Until::Idle,
                DEFAULT_COMMAND_RETRIES as nat,
                Error::TimeoutWaitNotBusy,
                replies,
            ),
        )
    } else {
        command_send(cmd, arg, replies)
    }
}

/// The wait for the bus, and the command after it.
pub open spec fn command_unbusy(cmd: u8, arg: u32, busy: Run<Result<u8, Error>>) -> Run<
    Result<u8, Error>,
> {
    busy.followed_by(command_ready(cmd, arg, busy.value(), busy.tail()))
}

/// The command once the wait for the bus has ended with `waited`.
pub open spec fn command_ready(
    cmd: u8,
    arg: u32,
    waited: Result<u8, Error>,
    replies: Seq<ReplySpec>,
) -> Run<Result<u8, Error>> {
    match waited {
        Ok(_) => command_send(cmd, arg, replies),
        Err(e) => Run::done(Err(e), replies),
    }
}

/// Sending the frame, and what follows.
pub open spec fn command_send(cmd: u8, arg: u32, replies: Seq<ReplySpec>) -> Run<
    Result<u8, Error>,
> {
    Run::ask(
        ActionSpec::Write(frame(cmd, arg)),
        replies,
        command_sent(cmd, replies.first(), replies.drop_first()),
    )
}

/// The command once the write of its frame has been answered with `reply`.
pub open spec fn command_sent(cmd: u8, reply: ReplySpec, replies: Seq<ReplySpec>) -> Run<
    Result<u8, Error>,
> {
    match reply {
        ReplySpec::Done => if cmd == CMD12 {
            Run::ask(
                ActionSpec::Transfer(0xFF),
                replies,
                command_stuffed(cmd, replies.first(), replies.drop_first()),
            )
        } else {
            command_response(cmd, replies)
        },
        _ => Run::done(Err(Error::Transport), replies),
    }
}

/// The command once the transfer of the stuff byte has been answered with
/// `reply`.
pub open spec fn command_stuffed(cmd: u8, reply: ReplySpec, replies: Seq<ReplySpec>) -> Run<
    Result<u8, Error>,
> {
    match reply {
        ReplySpec::Byte(_) => command_response(cmd, replies),
        _ => Run::done(Err(Error::Transport), replies),
    }
}

/// The poll for the response.
pub open spec fn command_response(cmd: u8, replies: Seq<ReplySpec>) -> Run<Result<u8, Error>> {
    poll_run(Until::Response, DEFAULT_COMMAND_RETRIES as nat, Error::TimeoutCommand(cmd), replies)
}

#[derive(Debug)]
enum CommandPhase {
    Busy(Poll),
    Frame,
    Stuff,
    Response(Poll),
}

/// A command in progress.
#[derive(Debug)]
pub struct Command {
    cmd: u8,
    arg: u32,
    phase: CommandPhase,
}

impl Command {
    /// What the command does once the pending action is answered with
    /// `reply` and `replies` follow.
    pub closed spec fn on(self, reply: ReplySpec, replies: Seq<ReplySpec>) -> Run<
        Result<u8, Error>,
    > {
        match self.phase {
            CommandPhase::Busy(poll) => command_unbusy(self.cmd, self.arg, poll.on(reply, replies)),
            CommandPhase::Frame => command_sent(self.cmd, reply, replies),
            CommandPhase::Stuff => command_stuffed(self.cmd, reply, replies),
            CommandPhase::Response(poll) => poll.on(reply, replies),
        }
    }

    /// Starts the command `cmd` with the argument `arg`.
    pub fn start(cmd: u8, arg: u32) -> (out: (Command, Action))
        ensures
            forall|replies: Seq<ReplySpec>|
                #[trigger] command_run(cmd, arg, replies) == Run::ask(
                    out.1@,
                    replies,
                    out.0.on(replies.first(), replies.drop_first()),
                ),
    {
        reveal(command_run);
        if cmd != CMD0 && cmd != CMD12 {
            let (poll, action) = Poll::start(
                Until::Idle,
                Delay::new_command(),
                Error::TimeoutWaitNotBusy,
            );
            let command = Command { cmd, arg, phase: CommandPhase::Busy(poll) };
            (command, action)
        } else {
            (
                Command { cmd, arg, phase: CommandPhase::Frame },
                Action::Write(command_frame(cmd, arg)),
            )
        }
    }

    /// Resumes the command with the reply to its pending action.
    pub fn step(self, reply: Reply) -> (out: Next<Command, Result<u8, Error>>)
        ensures
            match out {
                Next::Need(command, action) => forall|replies: Seq<ReplySpec>|
                    #[trigger] self.on(reply@, replies) == Run::ask(
                        action@,
                        replies,
                        command.on(replies.first(), replies.drop_first()),
                    ),
                Next::Done(value) => forall|replies: Seq<ReplySpec>|
                    #[trigger] self.on(reply@, replies) == Run::done(value, replies),
            },
    {
        let cmd = self.cmd;
        let arg = self.arg;
        match self.phase {
            CommandPhase::Busy(poll) => {
                match poll.step(reply) {
                    Next::Need(poll2, action) => {
                        let command = Command { cmd, arg, phase: CommandPhase::Busy(poll2) };
                        Next::Need(command, action)
                    },
                    Next::Done(Err(e)) => {
                        Next::Done(Err(e))
                    },
                    Next::Done(Ok(byte)) => {
                        let command = Command { cmd, arg, phase: CommandPhase::Frame };
                        let action = Action::Write(command_frame(cmd, arg));
                        Next::Need(command, action)
                    },
                }
            },
            CommandPhase::Frame => {
                match reply {
                    Reply::Done => {
                        if cmd == CMD12 {
                            Next::Need(
                                Command { cmd, arg, phase: CommandPhase::Stuff },
                                Action::Transfer(0xFF),
                            )
                        } else {
                            Self::await_response(cmd, arg)
                        }
                    },
                    _ => Next::Done(Err(Error::Transport)),
                }
            },
            CommandPhase::Stuff => {
                match reply {
                    Reply::Byte(_) => Self::await_response(cmd, arg),
                    _ => Next::Done(Err(Error::Transport)),
                }
            },
            CommandPhase::Response(poll) => {
                match poll.step(reply) {
                    Next::Need(poll2, action) => Next::Need(
                        Command { cmd, arg, phase: CommandPhase::Response(poll2) },
                        action,
                    ),
                    Next::Done(value) => Next::Done(value),
                }
            },
        }
    }

    fn await_response(cmd: u8, arg: u32) -> (out: Next<Command, Result<u8, Error>>)
        ensures
            out matches Next::Need(command, action) && forall|replies: Seq<ReplySpec>|
                #[trigger] command_response(cmd, replies) == Run::ask(
                    action@,
                    replies,
                    command.on(replies.first(), replies.drop_first()),
                ),
    {
        let (poll, action) = Poll::start(
            Until::Response,
            Delay::new_command(),
            Error::TimeoutCommand(cmd),
        );
        Next::Need(Command { cmd, arg, phase: CommandPhase::Response(poll) }, action)
    }
}

/// An application-specific command: the prefix command, whose response is
/// only checked for being there, and the command itself.
#[verifier::opaque]
pub open spec fn acmd_run(cmd: u8, arg: u32, replies: Seq<ReplySpec>) -> Run<Result<u8, Error>> {
    acmd_prefixed(cmd, arg, command_run(CMD55, 0, replies))
}

/// The prefix command, and the command after it.
pub open spec fn acmd_prefixed(cmd: u8, arg: u32, prefix: Run<Result<u8, Error>>) -> Run<
    Result<u8, Error>,
> {
    prefix.followed_by(acmd_main(cmd, arg, prefix.value(), prefix.tail()))
}

/// The command once its prefix has ended with `prefixed`.
pub open spec fn acmd_main(
    cmd: u8,
    arg: u32,
    prefixed: Result<u8, Error>,
    replies: Seq<ReplySpec>,
) -> Run<Result<u8, Error>> {
    match prefixed {
        Ok(_) => command_run(cmd, arg, replies),
        Err(e) => Run::done(Err(e), replies),
    }
}

#[derive(Debug)]
enum AcmdPhase {
    Prefix(Command),
    Main(Command),
}

/// An application-specific command in progress.
#[derive(Debug)]
pub struct Acmd {
    cmd: u8,
    arg: u32,
    phase: AcmdPhase,
}

impl Acmd {
    /// What the command does once the pending action is answered with
    /// `reply` and `replies` follow.
    pub closed spec fn on(self, reply: ReplySpec, replies: Seq<ReplySpec>) -> Run<
        Result<u8, Error>,
    > {
        match self.phase {
            AcmdPhase::Prefix(prefix) => acmd_prefixed(
                self.cmd,
                self.arg,
                prefix.on(reply, replies),
            ),
            AcmdPhase::Main(main) => main.on(reply, replies),
        }
    }

    /// Starts the application-specific command `cmd` with the argument
    /// `arg`.
    pub fn start(cmd: u8, arg: u32) -> (out: (Acmd, Action))
        ensures
            forall|replies: Seq<ReplySpec>|
                #[trigger] acmd_run(cmd, arg, replies) == Run::ask(
                    out.1@,
                    replies,
                    out.0.on(replies.first(), replies.drop_first()),
                ),
    {
        reveal(acmd_run);
        let (prefix, action) = Command::start(CMD55, 0);
        (Acmd { cmd, arg, phase: AcmdPhase::Prefix(prefix) }, action)
    }

    /// Resumes the command with the reply to its pending action.
    pub fn step(self, reply: Reply) -> (out: Next<Acmd, Result<u8, Error>>)
        ensures
            match out {
                Next::Need(acmd, action) => forall|replies: Seq<ReplySpec>|
                    #[trigger] self.on(reply@, replies) == Run::ask(
                        action@,
                        replies,
                        acmd.on(replies.first(), replies.drop_first()),
                    ),
                Next::Done(value) => forall|replies: Seq<ReplySpec>|
                    #[trigger] self.on(reply@, replies) == Run::done(value, replies),
            },
    {
        let cmd = self.cmd;
        let arg = self.arg;
        match self.phase {
            AcmdPhase::Prefix(prefix) => match prefix.step(reply) {
                Next::Need(prefix, action) => Next::Need(
                    Acmd { cmd, arg, phase: AcmdPhase::Prefix(prefix) },
                    action,
                ),
                Next::Done(Err(e)) => Next::Done(Err(e)),
                Next::Done(Ok(_)) => {
                    let (main, action) = Command::start(cmd, arg);
                    Next::Need(Acmd { cmd, arg, phase: AcmdPhase::Main(main) }, action)
                },
            },
            AcmdPhase::Main(main) => match main.step(reply) {
                Next::Need(main, action) => Next::Need(
                    Acmd { cmd, arg, phase: AcmdPhase::Main(main) },
                    action,
                ),
                Next::Done(value) => Next::Done(value),
            },
        }
    }
}

} // verus!
