//! The debugger session: which lines it sends, and what it makes of the replies.
//!
//! A session never touches the debugger process. It writes commands to its
//! transport and reads replies from it; whoever owns the process moves the text
//! (see [`Gdb::take_output`], [`Gdb::feed`] and [`Gdb::end_of_stream`]) and, at
//! the end of a run, hands in what the target wrote (see [`Gdb::supply_output`]).
//! A call that needs what has not arrived yet fails with
//! [`IoFailure::WouldBlock`] and keeps what it has done so far: once more has
//! been handed in, the same call goes on where it stopped.

use vstd::prelude::*;
use vstd::string::StringExecFns;
use crate::parsing::parse_stop_line;
use crate::parsing::stop_of_line_is;
use crate::parsing::ParseError;
use crate::parsing::StopReason;
use crate::text::contains;
use crate::text::last_line;
use crate::text::last_line_of;
use crate::text::occurs_in;
use crate::text::push_decimal;
use crate::text::push_signed_decimal;
use crate::text::decimal;
use crate::text::signed_decimal;
use crate::transport::lemma_line_stays;
use crate::transport::lemma_line_then_rest;
use crate::transport::lemma_reply_stays;
use crate::transport::lemma_reply_then_rest;
use crate::transport::line_len;
use crate::transport::reply_len;
use crate::transport::starved;
use crate::transport::Channel;
use crate::transport::IoFailure;
use crate::transport::ProcessIO;

verus! {

/// Why a session could not be brought up.
#[derive(Debug)]
pub enum GDBSetupError {
    /// The debugger process could not be started.
    SpawnError(IoFailure),
    /// Text could not be moved to or from the debugger process.
    IOError(IoFailure),
    /// The debugger did not answer the greeting or one of the setup commands.
    CommandError(IoFailure),
}

/// Why a run of the target gave no stop reason.
#[derive(Debug)]
pub enum RunError {
    /// The exchange with the debugger broke off.
    IOError(IoFailure),
    /// The debugger's stop record could not be read.
    ParseError(ParseError),
}

impl From<IoFailure> for RunError {
    fn from(value: IoFailure) -> (e: Self) {
        RunError::IOError(value)
    }
}

impl vstd::std_specs::convert::FromSpecImpl<IoFailure> for RunError {
    open spec fn obeys_from_spec() -> bool {
        true
    }

    open spec fn from_spec(value: IoFailure) -> Self {
        RunError::IOError(value)
    }
}

impl From<ParseError> for RunError {
    fn from(value: ParseError) -> (e: Self) {
        RunError::ParseError(value)
    }
}

impl vstd::std_specs::convert::FromSpecImpl<ParseError> for RunError {
    open spec fn obeys_from_spec() -> bool {
        true
    }

    open spec fn from_spec(value: ParseError) -> Self {
        RunError::ParseError(value)
    }
}

/// Where a session stands.
///
/// A session starts at `Banner` and comes up through the four setup stages to
/// `Ready`. From `Ready` a command takes it to `Command` and back, and a run
/// through `Stop`, `Resync`, after a signal `Kill`, and `Collect`, back to
/// `Ready`. `Terminated` is final.
#[derive(Debug, Clone, Copy, PartialEq, Eq, Structural)]
pub enum Stage {
    /// Starting: the debugger's first prompt is outstanding.
    Banner,
    /// Starting: the reply to `set pagination off` is outstanding.
    Pagination,
    /// Starting: the reply to `set debuginfod enabled off` is outstanding.
    Debuginfod,
    /// Starting: the reply to `set confirm off` is outstanding.
    Confirm,
    /// Starting: the reply to the `file` command is outstanding.
    File,
    /// No call is in flight.
    Ready,
    /// Configuring: the reply to a command is outstanding.
    Command,
    /// Running: the stop record is outstanding.
    Stop,
    /// Running: the prompt after the stop record is outstanding.
    Resync,
    /// Running: the reply to `kill` is outstanding.
    Kill,
    /// Running: what the target wrote to its output is outstanding.
    Collect,
    /// The debugger has been told to quit.
    Terminated,
}

/// A session as a mathematical value.
pub struct Session {
    /// The text in flight between the session and the debugger.
    pub channel: Channel,
    /// The executable that the session was made for.
    pub exec_path: Seq<char>,
    /// Where the session stands.
    pub stage: Stage,
    /// Whether the debugger's echo of the command in flight has been read.
    pub echoed: bool,
    /// The stop record of the run in flight, once it has arrived.
    pub record: Seq<char>,
    /// What the target of the run in flight wrote, once it has been handed in.
    pub captured: Option<Seq<u8>>,
}

/// The line with which the debugger says that it is ready for a command.
pub open spec fn prompt() -> Seq<char> {
    "(gdb)"@
}

/// The text with which a stop record begins.
pub open spec fn stop_prefix() -> Seq<char> {
    "*stopped"@
}

/// The text in a stop record that tells of a signal.
pub open spec fn signal_marker() -> Seq<char> {
    "reason=\"signal-received\""@
}

/// The command that runs the target with its input taken from `stdin_path` and
/// its output sent to `stdout_path`.
pub open spec fn run_line(stdin_path: Seq<char>, stdout_path: Seq<char>) -> Seq<char> {
    "run <"@ + stdin_path + " >"@ + stdout_path
}

/// The session once the debugger has printed `text`.
pub open spec fn fed(s: Session, text: Seq<char>) -> Session {
    Session { channel: Channel { incoming: s.channel.incoming + text, ..s.channel }, ..s }
}

/// The session once `command` has been written to the debugger, at `stage`.
pub open spec fn sent(s: Session, command: Seq<char>, stage: Stage) -> Session {
    Session {
        channel: Channel { outgoing: s.channel.outgoing + command + seq!['\n'], ..s.channel },
        stage,
        echoed: false,
        ..s
    }
}

/// An attempt to read whole lines up to the first one that starts with `prefix`:
/// the session afterwards, and the lines or the failure.
pub open spec fn taken(s: Session, prefix: Seq<char>) -> (Session, Result<Seq<char>, IoFailure>) {
    match reply_len(s.channel.incoming, prefix) {
        Some(n) => (
            Session {
                channel: Channel { incoming: s.channel.incoming.skip(n as int), ..s.channel },
                ..s
            },
            Ok(s.channel.incoming.take(n as int)),
        ),
        None => (s, Err(starved(s.channel.closed))),
    }
}

/// An attempt to read the reply to the command in flight: the echo of the
/// command, which is dropped, and then the lines up to the prompt.
pub open spec fn reply_taken(s: Session) -> (Session, Result<Seq<char>, IoFailure>) {
    if s.echoed {
        taken(s, prompt())
    } else {
        match line_len(s.channel.incoming) {
            Some(n) => taken(
                Session {
                    channel: Channel { incoming: s.channel.incoming.skip(n as int), ..s.channel },
                    echoed: true,
                    ..s
                },
                prompt(),
            ),
            None => (s, Err(starved(s.channel.closed))),
        }
    }
}

/// The setup command whose reply is outstanding at `stage`.
pub open spec fn setup_line(stage: Stage, exec_path: Seq<char>) -> Seq<char> {
    match stage {
        Stage::Pagination => "set pagination off"@,
        Stage::Debuginfod => "set debuginfod enabled off"@,
        Stage::Confirm => "set confirm off"@,
        _ => "file "@ + exec_path,
    }
}

/// The stage that follows `stage` while the session comes up.
pub open spec fn stage_after(stage: Stage) -> Stage {
    match stage {
        Stage::Banner => Stage::Pagination,
        Stage::Pagination => Stage::Debuginfod,
        Stage::Debuginfod => Stage::Confirm,
        Stage::Confirm => Stage::File,
        _ => Stage::Ready,
    }
}

/// How many replies are outstanding at `stage` before the session is up.
pub open spec fn setup_left(stage: Stage) -> nat {
    match stage {
        Stage::Banner => 5,
        Stage::Pagination => 4,
        Stage::Debuginfod => 3,
        Stage::Confirm => 2,
        Stage::File => 1,
        _ => 0,
    }
}

/// Bringing the session up as far as the text that has arrived allows.
///
/// At `Banner` the session waits for the first prompt; then it sends the three
/// setup commands and the `file` command one by one, each after the reply to the
/// one before. It stops at the first reply that has not arrived in full. A
/// session that is up stays as it is; after that stage the call is out of turn.
pub open spec fn started(s: Session) -> (Session, Result<(), IoFailure>)
    decreases setup_left(s.stage),
{
    if setup_left(s.stage) == 0 {
        (
            s,
            if s.stage == Stage::Ready {
                Ok(())
            } else {
                Err(IoFailure::OutOfTurn)
            },
        )
    } else {
        let (after, reply) = if s.stage == Stage::Banner {
            taken(s, prompt())
        } else {
            reply_taken(s)
        };
        match reply {
            Err(e) => (after, Err(e)),
            Ok(_) => {
                let next = stage_after(s.stage);
                if next == Stage::Ready {
                    (Session { stage: Stage::Ready, ..after }, Ok(()))
                } else {
                    started(sent(after, setup_line(next, s.exec_path), next))
                }
            },
        }
    }
}

/// Sending `command` and reading its reply as far as the text that has arrived
/// allows.
///
/// From `Ready` the command is written first. The reply is what follows the echo
/// of the command, up to and including the prompt. With the reply the session is
/// `Ready` again; without it, it stays at `Command`, where the next call reads on
/// and writes nothing. At any other stage the call is out of turn.
pub open spec fn commanded(s: Session, command: Seq<char>) -> (
    Session,
    Result<Seq<char>, IoFailure>,
) {
    if s.stage == Stage::Ready || s.stage == Stage::Command {
        let begun = if s.stage == Stage::Ready {
            sent(s, command, Stage::Command)
        } else {
            s
        };
        let (after, reply) = reply_taken(begun);
        match reply {
            Ok(text) => (Session { stage: Stage::Ready, ..after }, Ok(text)),
            Err(e) => (after, Err(e)),
        }
    } else {
        (s, Err(IoFailure::OutOfTurn))
    }
}

/// How many stages of a run are outstanding at `stage`.
pub open spec fn run_left(stage: Stage) -> nat {
    match stage {
        Stage::Stop => 4,
        Stage::Resync => 3,
        Stage::Kill => 2,
        Stage::Collect => 1,
        _ => 0,
    }
}

/// A run in flight, taken as far as what has arrived allows: the session
/// afterwards, and the stop record with the target's output, or the failure.
///
/// The session reads up to the stop record, which is the last line of what it
/// read, and then up to the prompt. If the record tells of a signal, the session
/// sends `kill` and reads the reply. Then it waits for what the target wrote,
/// gives it away, and is `Ready` again.
pub open spec fn advanced(s: Session) -> (Session, Result<(Seq<char>, Seq<u8>), IoFailure>)
    decreases run_left(s.stage),
{
    match s.stage {
        Stage::Stop => {
            let (after, reply) = taken(s, stop_prefix());
            match reply {
                Err(e) => (after, Err(e)),
                Ok(text) => advanced(
                    Session { stage: Stage::Resync, record: last_line_of(text), ..after },
                ),
            }
        },
        Stage::Resync => {
            let (after, reply) = taken(s, prompt());
            match reply {
                Err(e) => (after, Err(e)),
                Ok(_) => if occurs_in(after.record, signal_marker()) {
                    advanced(sent(after, "kill"@, Stage::Kill))
                } else {
                    advanced(Session { stage: Stage::Collect, ..after })
                },
            }
        },
        Stage::Kill => {
            let (after, reply) = reply_taken(s);
            match reply {
                Err(e) => (after, Err(e)),
                Ok(_) => advanced(Session { stage: Stage::Collect, ..after }),
            }
        },
        Stage::Collect => match s.captured {
            Some(output) => (
                Session { stage: Stage::Ready, captured: None, ..s },
                Ok((s.record, output)),
            ),
            None => (s, Err(IoFailure::WouldBlock)),
        },
        _ => (s, Err(IoFailure::OutOfTurn)),
    }
}

/// Running the target as far as the text that has arrived allows.
///
/// From `Ready` the `run` command is written first, and output handed in before
/// is dropped; during a run the call reads on and writes no `run` command. At any
/// other stage the call is out of turn.
pub open spec fn ran(s: Session, stdin_path: Seq<char>, stdout_path: Seq<char>) -> (
    Session,
    Result<(Seq<char>, Seq<u8>), IoFailure>,
) {
    if s.stage == Stage::Ready {
        advanced(launched(s, stdin_path, stdout_path))
    } else {
        advanced(s)
    }
}

/// The session once the `run` command has been written.
pub open spec fn launched(s: Session, stdin_path: Seq<char>, stdout_path: Seq<char>) -> Session {
    Session { captured: None, ..sent(s, run_line(stdin_path, stdout_path), Stage::Stop) }
}

/// Whether the outcome `r` of a read is the outcome `expected`.
pub open spec fn read_as(
    r: Result<String, IoFailure>,
    expected: Result<Seq<char>, IoFailure>,
) -> bool {
    match expected {
        Ok(text) => r matches Ok(found) && found@ == text,
        Err(e) => r matches Err(f) && f == e,
    }
}

/// Whether the outcome `r` of a run is what the stop record `record` stands
/// for, together with `output`.
pub open spec fn run_as(
    r: Result<(StopReason, Vec<u8>), RunError>,
    record: Seq<char>,
    output: Seq<u8>,
) -> bool {
    match r {
        Ok((reason, captured)) => stop_of_line_is(record, Ok(reason)) && captured@ == output,
        Err(RunError::ParseError(e)) => stop_of_line_is(record, Err(e)),
        Err(RunError::IOError(_)) => false,
    }
}

/// What a `Vec` of bytes holds, if there is one.
pub open spec fn bytes_of(captured: Option<Vec<u8>>) -> Option<Seq<u8>> {
    match captured {
        Some(bytes) => Some(bytes@),
        None => None,
    }
}

/// The path under which the process `pid` holds its open file `fd`.
pub open spec fn descriptor_path_of(pid: nat, fd: int) -> Seq<char> {
    "/proc/"@ + decimal(pid) + "/fd/"@ + signed_decimal(fd)
}

/// Spells the path under which the process `pid` holds its open file `fd`, so
/// that another process can open the same file.
pub fn descriptor_path(pid: u32, fd: i32) -> (path: String)
    ensures
        path@ == descriptor_path_of(pid as nat, fd as int),
{
    let mut path = String::from_str("/proc/");
    push_decimal(&mut path, pid as u64);
    path.append("/fd/");
    push_signed_decimal(&mut path, fd);
    path
}

/// A command gets its own reply and nothing else: with the echo of the command,
/// a whole reply and then more text waiting, the command returns that reply and
/// leaves the text after it where it is.
pub proof fn lemma_command_takes_its_reply(
    s: Session,
    command: Seq<char>,
    echo: Seq<char>,
    reply: Seq<char>,
    rest: Seq<char>,
)
    requires
        s.stage == Stage::Ready,
        s.channel.incoming == echo + reply + rest,
        line_len(echo) == Some(echo.len()),
        reply_len(reply, prompt()) == Some(reply.len()),
    ensures
        commanded(s, command).1 == Ok::<Seq<char>, IoFailure>(reply),
        commanded(s, command).0 == (Session {
            channel: Channel {
                outgoing: s.channel.outgoing + command + seq!['\n'],
                incoming: rest,
                closed: s.channel.closed,
            },
            stage: Stage::Ready,
            echoed: true,
            ..s
        }),
{
    assert(echo + reply + rest =~= echo + (reply + rest));
    lemma_line_then_rest(echo, reply + rest);
    lemma_reply_then_rest(reply, rest, prompt());
}

/// Two commands sent one after the other each return the lines of their own
/// reply: the first returns the first reply, the second the second, and nothing
/// is left over.
pub proof fn lemma_commands_in_sequence(
    s: Session,
    first: Seq<char>,
    second: Seq<char>,
    echo1: Seq<char>,
    reply1: Seq<char>,
    echo2: Seq<char>,
    reply2: Seq<char>,
)
    requires
        s.stage == Stage::Ready,
        s.channel.incoming == echo1 + reply1 + (echo2 + reply2),
        line_len(echo1) == Some(echo1.len()),
        line_len(echo2) == Some(echo2.len()),
        reply_len(reply1, prompt()) == Some(reply1.len()),
        reply_len(reply2, prompt()) == Some(reply2.len()),
    ensures
        commanded(s, first).1 == Ok::<Seq<char>, IoFailure>(reply1),
        commanded(commanded(s, first).0, second).1 == Ok::<Seq<char>, IoFailure>(reply2),
        commanded(commanded(s, first).0, second).0.channel.incoming == Seq::<char>::empty(),
        commanded(commanded(s, first).0, second).0.stage == Stage::Ready,
{
    lemma_command_takes_its_reply(s, first, echo1, reply1, echo2 + reply2);
    let between = commanded(s, first).0;
    assert(echo2 + reply2 =~= echo2 + reply2 + Seq::<char>::empty());
    lemma_command_takes_its_reply(between, second, echo2, reply2, Seq::empty());
}

/// A run that is through leaves the session ready, whatever stopped the
/// target: the next command or run is in turn. It has given away the output,
/// and its stop record is the one that the session holds.
pub proof fn lemma_run_ends_ready(s: Session, stdin_path: Seq<char>, stdout_path: Seq<char>)
    requires
        ran(s, stdin_path, stdout_path).1 is Ok,
    ensures
        ran(s, stdin_path, stdout_path).0.stage == Stage::Ready,
        ran(s, stdin_path, stdout_path).0.captured is None,
        ran(s, stdin_path, stdout_path).0.record == ran(s, stdin_path, stdout_path).1->Ok_0.0,
{
    let begun = if s.stage == Stage::Ready {
        launched(s, stdin_path, stdout_path)
    } else {
        s
    };
    lemma_advance_ends_ready(begun);
}

/// A run in flight that gets through leaves the session ready.
proof fn lemma_advance_ends_ready(s: Session)
    requires
        advanced(s).1 is Ok,
    ensures
        advanced(s).0.stage == Stage::Ready,
        advanced(s).0.captured is None,
        advanced(s).0.record == advanced(s).1->Ok_0.0,
    decreases run_left(s.stage),
{
    match s.stage {
        Stage::Stop => {
            let (after, reply) = taken(s, stop_prefix());
            lemma_advance_ends_ready(
                Session { stage: Stage::Resync, record: last_line_of(reply->Ok_0), ..after },
            );
        },
        Stage::Resync => {
            let (after, reply) = taken(s, prompt());
            if occurs_in(after.record, signal_marker()) {
                lemma_advance_ends_ready(sent(after, "kill"@, Stage::Kill));
            } else {
                lemma_advance_ends_ready(Session { stage: Stage::Collect, ..after });
            }
        },
        Stage::Kill => {
            let (after, reply) = reply_taken(s);
            lemma_advance_ends_ready(Session { stage: Stage::Collect, ..after });
        },
        _ => {},
    }
}

/// Lines that have been read stay read when more text arrives: the read gives
/// the same lines, and the new text waits behind what was left.
proof fn lemma_taken_stays(s: Session, prefix: Seq<char>, more: Seq<char>)
    requires
        taken(s, prefix).1 is Ok,
    ensures
        taken(fed(s, more), prefix) == (fed(taken(s, prefix).0, more), taken(s, prefix).1),
{
    lemma_reply_stays(s.channel.incoming, more, prefix);
}

/// A reply that has been read stays read when more text arrives.
proof fn lemma_reply_taken_stays(s: Session, more: Seq<char>)
    requires
        reply_taken(s).1 is Ok,
    ensures
        reply_taken(fed(s, more)) == (fed(reply_taken(s).0, more), reply_taken(s).1),
{
    if s.echoed {
        lemma_taken_stays(s, prompt(), more);
    } else {
        lemma_line_stays(s.channel.incoming, more);
        let n = line_len(s.channel.incoming)->0 as int;
        let echoed = Session {
            channel: Channel { incoming: s.channel.incoming.skip(n), ..s.channel },
            echoed: true,
            ..s
        };
        lemma_taken_stays(echoed, prompt(), more);
    }
}

/// A read of a reply that had to wait goes on where it stopped: reading again
/// after more text has arrived gives what one read of all the text gives.
proof fn lemma_reply_taken_resumes(s: Session, more: Seq<char>)
    requires
        reply_taken(s).1 is Err,
    ensures
        reply_taken(fed(reply_taken(s).0, more)) == reply_taken(fed(s, more)),
{
    if !s.echoed && line_len(s.channel.incoming) is Some {
        lemma_line_stays(s.channel.incoming, more);
    }
}

/// Bringing a session up does not depend on how the debugger's text is cut into
/// pieces: a call that had to wait, repeated after more text has arrived, gives
/// what one call with all the text gives.
pub proof fn lemma_start_resumes(s: Session, more: Seq<char>)
    requires
        started(s).1 is Err,
    ensures
        started(fed(started(s).0, more)) == started(fed(s, more)),
    decreases setup_left(s.stage),
{
    if setup_left(s.stage) > 0 {
        let (after, reply) = if s.stage == Stage::Banner {
            taken(s, prompt())
        } else {
            reply_taken(s)
        };
        if reply is Ok {
            if s.stage == Stage::Banner {
                lemma_taken_stays(s, prompt(), more);
            } else {
                lemma_reply_taken_stays(s, more);
            }
            let next = stage_after(s.stage);
            let begun = sent(after, setup_line(next, s.exec_path), next);
            assert(sent(fed(after, more), setup_line(next, s.exec_path), next) == fed(begun, more));
            lemma_start_resumes(begun, more);
        } else if s.stage != Stage::Banner {
            lemma_reply_taken_resumes(s, more);
        }
    }
}

/// A command does not depend on how the debugger's text is cut into pieces: a
/// call that had to wait, repeated after more text has arrived, gives what one
/// call with all the text gives, and the command is written once.
pub proof fn lemma_command_resumes(s: Session, command: Seq<char>, more: Seq<char>)
    requires
        commanded(s, command).1 is Err,
    ensures
        commanded(fed(commanded(s, command).0, more), command) == commanded(fed(s, more), command),
{
    if s.stage == Stage::Ready || s.stage == Stage::Command {
        let begun = if s.stage == Stage::Ready {
            sent(s, command, Stage::Command)
        } else {
            s
        };
        lemma_reply_taken_resumes(begun, more);
        assert(sent(fed(s, more), command, Stage::Command) == fed(
            sent(s, command, Stage::Command),
            more,
        ));
    }
}

/// A run in flight does not depend on how the debugger's text is cut into pieces.
proof fn lemma_advance_resumes(s: Session, more: Seq<char>)
    requires
        advanced(s).1 is Err,
    ensures
        advanced(fed(advanced(s).0, more)) == advanced(fed(s, more)),
    decreases run_left(s.stage),
{
    match s.stage {
        Stage::Stop => {
            let (after, reply) = taken(s, stop_prefix());
            if reply is Ok {
                lemma_taken_stays(s, stop_prefix(), more);
                lemma_advance_resumes(
                    Session { stage: Stage::Resync, record: last_line_of(reply->Ok_0), ..after },
                    more,
                );
            }
        },
        Stage::Resync => {
            let (after, reply) = taken(s, prompt());
            if reply is Ok {
                lemma_taken_stays(s, prompt(), more);
                if occurs_in(after.record, signal_marker()) {
                    let begun = sent(after, "kill"@, Stage::Kill);
                    assert(sent(fed(after, more), "kill"@, Stage::Kill) == fed(begun, more));
                    lemma_advance_resumes(begun, more);
                } else {
                    lemma_advance_resumes(Session { stage: Stage::Collect, ..after }, more);
                }
            }
        },
        Stage::Kill => {
            let (after, reply) = reply_taken(s);
            if reply is Ok {
                lemma_reply_taken_stays(s, more);
                lemma_advance_resumes(Session { stage: Stage::Collect, ..after }, more);
            } else {
                lemma_reply_taken_resumes(s, more);
            }
        },
        _ => {},
    }
}

/// A run does not depend on how the debugger's text is cut into pieces: a call
/// that had to wait, repeated after more text has arrived, gives what one call
/// with all the text gives, and the `run` command is written once.
pub proof fn lemma_run_resumes(
    s: Session,
    stdin_path: Seq<char>,
    stdout_path: Seq<char>,
    more: Seq<char>,
)
    requires
        ran(s, stdin_path, stdout_path).1 is Err,
    ensures
        ran(fed(ran(s, stdin_path, stdout_path).0, more), stdin_path, stdout_path) == ran(
            fed(s, more),
            stdin_path,
            stdout_path,
        ),
{
    if s.stage == Stage::Ready {
        let begun = launched(s, stdin_path, stdout_path);
        assert(launched(fed(s, more), stdin_path, stdout_path) == fed(begun, more));
        lemma_advance_resumes(begun, more);
        lemma_advance_keeps_running(begun);
    } else {
        lemma_advance_resumes(s, more);
        if run_left(s.stage) > 0 {
            lemma_advance_keeps_running(s);
        }
    }
}

/// A run in flight that has to wait is still in flight.
proof fn lemma_advance_keeps_running(s: Session)
    requires
        run_left(s.stage) > 0,
        advanced(s).1 is Err,
    ensures
        run_left(advanced(s).0.stage) > 0,
    decreases run_left(s.stage),
{
    match s.stage {
        Stage::Stop => {
            let (after, reply) = taken(s, stop_prefix());
            if reply is Ok {
                lemma_advance_keeps_running(
                    Session { stage: Stage::Resync, record: last_line_of(reply->Ok_0), ..after },
                );
            }
        },
        Stage::Resync => {
            let (after, reply) = taken(s, prompt());
            if reply is Ok {
                if occurs_in(after.record, signal_marker()) {
                    lemma_advance_keeps_running(sent(after, "kill"@, Stage::Kill));
                } else {
                    lemma_advance_keeps_running(Session { stage: Stage::Collect, ..after });
                }
            }
        },
        Stage::Kill => {
            let (after, reply) = reply_taken(s);
            if reply is Ok {
                lemma_advance_keeps_running(Session { stage: Stage::Collect, ..after });
            }
        },
        _ => {},
    }
}

/// After a stop on a signal the session can run the target again. With the
/// lines up to a stop record that tells of a signal, the prompt after it, and
/// the echo of and the reply to `kill` waiting, a run from `Ready` sends the
/// `run` command and then `kill`, reads all of the text, and waits for the
/// target's output; with the output handed in, it returns that stop record and
/// the output and leaves the session `Ready`.
pub proof fn lemma_run_after_signal(
    s: Session,
    stdin_path: Seq<char>,
    stdout_path: Seq<char>,
    events: Seq<char>,
    resync: Seq<char>,
    echo: Seq<char>,
    reply: Seq<char>,
    output: Seq<u8>,
)
    requires
        s.stage == Stage::Ready,
        s.channel.incoming == events + resync + echo + reply,
        reply_len(events, stop_prefix()) == Some(events.len()),
        reply_len(resync, prompt()) == Some(resync.len()),
        line_len(echo) == Some(echo.len()),
        reply_len(reply, prompt()) == Some(reply.len()),
        occurs_in(last_line_of(events), signal_marker()),
    ensures
        ({
            let (waiting, first) = ran(s, stdin_path, stdout_path);
            let (after, second) = ran(
                Session { captured: Some(output), ..waiting },
                stdin_path,
                stdout_path,
            );
            &&& first == Err::<(Seq<char>, Seq<u8>), IoFailure>(IoFailure::WouldBlock)
            &&& waiting == (Session {
                channel: Channel {
                    outgoing: s.channel.outgoing + run_line(stdin_path, stdout_path) + seq!['\n']
                        + "kill"@ + seq!['\n'],
                    incoming: Seq::empty(),
                    closed: s.channel.closed,
                },
                stage: Stage::Collect,
                echoed: true,
                record: last_line_of(events),
                captured: None,
                ..s
            })
            &&& second == Ok::<(Seq<char>, Seq<u8>), IoFailure>((last_line_of(events), output))
            &&& after == (Session { stage: Stage::Ready, ..waiting })
        }),
{
    let begun = launched(s, stdin_path, stdout_path);
    assert(events + resync + echo + reply =~= events + (resync + echo + reply));
    lemma_reply_then_rest(events, resync + echo + reply, stop_prefix());
    let stopped = Session {
        stage: Stage::Resync,
        record: last_line_of(events),
        ..taken(begun, stop_prefix()).0
    };
    assert(resync + echo + reply =~= resync + (echo + reply));
    lemma_reply_then_rest(resync, echo + reply, prompt());
    let killing = sent(taken(stopped, prompt()).0, "kill"@, Stage::Kill);
    lemma_line_then_rest(echo, reply);
    assert(reply =~= reply + Seq::<char>::empty());
    lemma_reply_then_rest(reply, Seq::empty(), prompt());
    assert(reply.skip(reply.len() as int) =~= Seq::<char>::empty());
    let collecting = Session { stage: Stage::Collect, ..reply_taken(killing).0 };
    assert(advanced(killing) == advanced(collecting));
    assert(advanced(stopped) == advanced(killing));
    assert(advanced(begun) == advanced(stopped));
}

/// A session with a debugger.
pub struct Gdb {
    io: ProcessIO,
    exec_path: String,
    stage: Stage,
    echoed: bool,
    record: String,
    captured: Option<Vec<u8>>,
}

impl View for Gdb {
    type V = Session;

    closed spec fn view(&self) -> Session {
        Session {
            channel: self.io@,
            exec_path: self.exec_path@,
            stage: self.stage,
            echoed: self.echoed,
            record: self.record@,
            captured: bytes_of(self.captured),
        }
    }
}

impl Gdb {
    /// A session for the executable at `exec_path`, before the debugger's first
    /// prompt.
    pub fn new(exec_path: &str) -> (gdb: Self)
        ensures
            gdb@ == (Session {
                channel: Channel {
                    outgoing: Seq::empty(),
                    incoming: Seq::empty(),
                    closed: false,
                },
                exec_path: exec_path@,
                stage: Stage::Banner,
                echoed: false,
                record: Seq::empty(),
                captured: None,
            }),
    {
        Gdb {
            io: ProcessIO::new(),
            exec_path: exec_path.to_owned(),
            stage: Stage::Banner,
            echoed: false,
            record: String::new(),
            captured: None,
        }
    }

    /// Where the session stands.
    pub fn stage(&self) -> (stage: Stage)
        ensures
            stage == self@.stage,
    {
        self.stage
    }

    /// Hands over what the session has written since the last call, for delivery
    /// to the debugger.
    pub fn take_output(&mut self) -> (text: String)
        ensures
            text@ == old(self)@.channel.outgoing,
            final(self)@ == (Session {
                channel: Channel { outgoing: Seq::empty(), ..old(self)@.channel },
                ..old(self)@
            }),
    {
        self.io.take_output()
    }

    /// Records text that the debugger has printed.
    pub fn feed(&mut self, text: &str)
        ensures
            final(self)@ == fed(old(self)@, text@),
    {
        self.io.feed(text);
    }

    /// Records that the debugger has closed its output.
    pub fn end_of_stream(&mut self)
        ensures
            final(self)@ == (Session {
                channel: Channel { closed: true, ..old(self)@.channel },
                ..old(self)@
            }),
    {
        self.io.end_of_stream();
    }

    /// Hands in what the target of the run in flight wrote to its output.
    pub fn supply_output(&mut self, output: Vec<u8>)
        ensures
            final(self)@ == (Session { captured: Some(output@), ..old(self)@ }),
    {
        self.captured = Some(output);
    }

    /// Writes `command` to the debugger and moves to `stage`.
    fn begin(&mut self, command: &str, stage: Stage)
        ensures
            final(self)@ == sent(old(self)@, command@, stage),
    {
        self.io.writeln(command);
        self.stage = stage;
        self.echoed = false;
    }

    /// Reads whole lines up to the first one that starts with `prefix`.
    fn take(&mut self, prefix: &str) -> (r: Result<String, IoFailure>)
        ensures
            final(self)@ == taken(old(self)@, prefix@).0,
            read_as(r, taken(old(self)@, prefix@).1),
    {
        self.io.read_until(prefix)
    }

    /// Reads the reply to the command in flight.
    fn take_reply(&mut self) -> (r: Result<String, IoFailure>)
        ensures
            final(self)@ == reply_taken(old(self)@).0,
            read_as(r, reply_taken(old(self)@).1),
    {
        if !self.echoed {
            match self.io.read_line() {
                Ok(_) => {
                    self.echoed = true;
                },
                Err(e) => {
                    return Err(e);
                },
            }
        }
        self.io.read_until("(gdb)")
    }

    /// The setup command that is sent on entering `stage`.
    fn setup_command(&self, stage: Stage) -> (command: String)
        ensures
            command@ == setup_line(stage, self@.exec_path),
    {
        match stage {
            Stage::Pagination => String::from_str("set pagination off"),
            Stage::Debuginfod => String::from_str("set debuginfod enabled off"),
            Stage::Confirm => String::from_str("set confirm off"),
            _ => String::from_str("file ").concat(self.exec_path.as_str()),
        }
    }

    /// Brings the session up: waits for the debugger's first prompt, switches off
    /// pagination, symbol download and confirmations, and loads the executable.
    ///
    /// Goes as far as the text that has arrived allows, as `started` says. A
    /// reply that has not arrived in full is a `CommandError`; the call that
    /// follows goes on from there.
    pub fn start(&mut self) -> (r: Result<(), GDBSetupError>)
        ensures
            final(self)@ == started(old(self)@).0,
            match started(old(self)@).1 {
                Ok(_) => r is Ok,
                Err(e) => r matches Err(GDBSetupError::CommandError(f)) && f == e,
            },
    {
        loop
            invariant
                started(self@) == started(old(self)@),
            decreases setup_left(self@.stage),
        {
            let reply = match self.stage {
                Stage::Banner => self.take("(gdb)"),
                Stage::Pagination | Stage::Debuginfod | Stage::Confirm | Stage::File => {
                    self.take_reply()
                },
                Stage::Ready => {
                    return Ok(());
                },
                _ => {
                    return Err(GDBSetupError::CommandError(IoFailure::OutOfTurn));
                },
            };
            match reply {
                Err(e) => {
                    return Err(GDBSetupError::CommandError(e));
                },
                Ok(_) => {
                    let next = match self.stage {
                        Stage::Banner => Stage::Pagination,
                        Stage::Pagination => Stage::Debuginfod,
                        Stage::Debuginfod => Stage::Confirm,
                        Stage::Confirm => Stage::File,
                        _ => Stage::Ready,
                    };
                    if next == Stage::Ready {
                        self.stage = Stage::Ready;
                        return Ok(());
                    }
                    let command = self.setup_command(next);
                    self.begin(command.as_str(), next);
                },
            }
        }
    }

    /// Sends `command` to the debugger and reads its reply: the lines that follow
    /// the echo of the command, up to and including the prompt.
    ///
    /// Goes as far as the text that has arrived allows, as `commanded` says.
    pub fn send_command(&mut self, command: &str) -> (r: Result<String, IoFailure>)
        ensures
            final(self)@ == commanded(old(self)@, command@).0,
            read_as(r, commanded(old(self)@, command@).1),
    {
        match self.stage {
            Stage::Ready => {
                self.begin(command, Stage::Command);
            },
            Stage::Command => {},
            _ => {
                return Err(IoFailure::OutOfTurn);
            },
        }
        match self.take_reply() {
            Ok(reply) => {
                self.stage = Stage::Ready;
                Ok(reply)
            },
            Err(e) => Err(e),
        }
    }

    /// Runs the target with its input taken from `stdin_path` and its output sent
    /// to `stdout_path`, and tells why it stopped and what it wrote.
    ///
    /// Goes as far as what has arrived allows, as `ran` says. Text or output
    /// that has not arrived is an `IOError`; the call that follows goes on from
    /// there. Once the run is through, the outcome is what the stop record stands
    /// for, with the output that was handed in.
    pub fn run(&mut self, stdin_path: &str, stdout_path: &str) -> (r: Result<
        (StopReason, Vec<u8>),
        RunError,
    >)
        ensures
            final(self)@ == ran(old(self)@, stdin_path@, stdout_path@).0,
            match ran(old(self)@, stdin_path@, stdout_path@).1 {
                Ok((record, output)) => run_as(r, record, output),
                Err(e) => r matches Err(RunError::IOError(f)) && f == e,
            },
    {
        if self.stage == Stage::Ready {
            let command = String::from_str("run <").concat(stdin_path).concat(" >").concat(
                stdout_path,
            );
            self.begin(command.as_str(), Stage::Stop);
            self.captured = None;
        }
        loop
            invariant
                advanced(self@) == ran(old(self)@, stdin_path@, stdout_path@),
            decreases run_left(self@.stage),
        {
            match self.stage {
                Stage::Stop => match self.take("*stopped") {
                    Ok(text) => {
                        self.record = last_line(text.as_str());
                        self.stage = Stage::Resync;
                    },
                    Err(e) => {
                        return Err(RunError::IOError(e));
                    },
                },
                Stage::Resync => match self.take("(gdb)") {
                    Ok(_) => {
                        if contains(self.record.as_str(), "reason=\"signal-received\"") {
                            self.begin("kill", Stage::Kill);
                        } else {
                            self.stage = Stage::Collect;
                        }
                    },
                    Err(e) => {
                        return Err(RunError::IOError(e));
                    },
                },
                Stage::Kill => match self.take_reply() {
                    Ok(_) => {
                        self.stage = Stage::Collect;
                    },
                    Err(e) => {
                        return Err(RunError::IOError(e));
                    },
                },
                Stage::Collect => match self.captured.take() {
                    Some(output) => {
                        self.stage = Stage::Ready;
                        return match parse_stop_line(self.record.as_str()) {
                            Ok(reason) => Ok((reason, output)),
                            Err(e) => Err(RunError::ParseError(e)),
                        };
                    },
                    None => {
                        return Err(RunError::IOError(IoFailure::WouldBlock));
                    },
                },
                _ => {
                    return Err(RunError::IOError(IoFailure::OutOfTurn));
                },
            }
        }
    }

    /// Tells the debugger to quit. No reply is expected, and no call is admitted
    /// afterwards. A session that has been told so before stays as it is.
    pub fn shutdown(&mut self)
        ensures
            final(self)@ == if old(self)@.stage == Stage::Terminated {
                old(self)@
            } else {
                sent(old(self)@, "exit"@, Stage::Terminated)
            },
    {
        if self.stage != Stage::Terminated {
            self.begin("exit", Stage::Terminated);
        }
    }
}

} // verus!
