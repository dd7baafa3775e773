use gdb_bridge::bridge::{descriptor_path, GDBSetupError, RunError, Stage};
use gdb_bridge::parsing::{ExitedWithCode, ParseError, StopReason};
use gdb_bridge::transport::IoFailure;
use gdb_bridge::Gdb;

/// Stands in for the debugger process: answers each command line as the
/// debugger's machine interface does.
struct Debugger {
    program: String,
    input: Vec<u8>,
    output: Vec<u8>,
    commands: Vec<String>,
    stopped_on_signal: bool,
}

impl Debugger {
    fn new() -> Self {
        Debugger {
            program: String::new(),
            input: Vec::new(),
            output: Vec::new(),
            commands: Vec::new(),
            stopped_on_signal: false,
        }
    }

    fn banner(&self) -> String {
        "=thread-group-added,id=\"i1\"\n~\"GNU gdb (GDB) 14.2\\n\"\n(gdb) \n".to_string()
    }

    fn answer(&mut self, line: &str) -> String {
        self.commands.push(line.to_string());
        let echo = format!("&\"{}\\n\"\n", line);
        if let Some(path) = line.strip_prefix("file ") {
            self.program = path.to_string();
            format!("{}~\"Reading symbols from {}...\\n\"\n^done\n(gdb) \n", echo, path)
        } else if line.starts_with("run ") {
            let record = self.execute();
            format!(
                "{}=thread-group-started,id=\"i1\",pid=\"4242\"\n^running\n*running,thread-id=\"all\"\n(gdb) \n=library-loaded,id=\"/lib/ld.so\"\n{}\n(gdb) \n",
                echo, record
            )
        } else if line == "kill" {
            self.stopped_on_signal = false;
            format!("{}~\"[Inferior 1 (process 4242) killed]\\n\"\n^done\n(gdb) \n", echo)
        } else if line == "exit" {
            String::new()
        } else {
            format!("{}^done\n(gdb) \n", echo)
        }
    }

    fn execute(&mut self) -> String {
        assert!(!self.stopped_on_signal, "the target is still suspended");
        self.output.clear();
        if self.program == "cat" {
            self.output = self.input.clone();
            "*stopped,reason=\"exited-normally\"".to_string()
        } else if self.input.len() > 64 {
            self.stopped_on_signal = true;
            "*stopped,reason=\"signal-received\",signal-name=\"SIGSEGV\",signal-meaning=\"Segmentation fault\",frame={addr=\"0x0000000000401136\",func=\"main\",args=[],arch=\"i386:x86-64\"},thread-id=\"1\",stopped-threads=\"all\",core=\"2\"".to_string()
        } else if self.input.ends_with(b"B") {
            "*stopped,reason=\"exited\",exit-code=\"012\"".to_string()
        } else {
            "*stopped,reason=\"exited-normally\"".to_string()
        }
    }

    fn pump(&mut self, gdb: &mut Gdb) {
        let written = gdb.take_output();
        assert!(!written.is_empty(), "the session waits without having asked");
        for line in written.lines() {
            let reply = self.answer(line);
            gdb.feed(&reply);
        }
    }
}

fn start(gdb: &mut Gdb, debugger: &mut Debugger) -> Result<(), GDBSetupError> {
    gdb.feed(&debugger.banner());
    loop {
        match gdb.start() {
            Err(GDBSetupError::CommandError(IoFailure::WouldBlock)) => debugger.pump(gdb),
            other => return other,
        }
    }
}

fn send_command(
    gdb: &mut Gdb,
    debugger: &mut Debugger,
    command: &str,
) -> Result<String, IoFailure> {
    loop {
        match gdb.send_command(command) {
            Err(IoFailure::WouldBlock) => debugger.pump(gdb),
            other => return other,
        }
    }
}

fn run(
    gdb: &mut Gdb,
    debugger: &mut Debugger,
    input: &str,
) -> Result<(StopReason, Vec<u8>), RunError> {
    debugger.input = input.as_bytes().to_vec();
    let stdin = descriptor_path(77, 3);
    let stdout = descriptor_path(77, 4);
    loop {
        match gdb.run(&stdin, &stdout) {
            Err(RunError::IOError(IoFailure::WouldBlock)) => {
                if gdb.stage() == Stage::Collect {
                    gdb.supply_output(debugger.output.clone());
                } else {
                    debugger.pump(gdb);
                }
            }
            other => return other,
        }
    }
}

fn started() -> (Gdb, Debugger) {
    let mut debugger = Debugger::new();
    let mut gdb = Gdb::new("target");
    start(&mut gdb, &mut debugger).unwrap();
    (gdb, debugger)
}

#[test]
fn gdb_spawns_and_dies() {
    let (mut gdb, debugger) = started();
    assert_eq!(gdb.stage(), Stage::Ready);
    assert_eq!(
        debugger.commands,
        ["set pagination off", "set debuginfod enabled off", "set confirm off", "file target"]
    );
    gdb.shutdown();
    assert_eq!(gdb.take_output(), "exit\n");
    assert_eq!(gdb.stage(), Stage::Terminated);
}

#[test]
fn gdb_runs_cat_until_completion() {
    let (mut gdb, mut debugger) = started();

    send_command(&mut gdb, &mut debugger, "file cat").unwrap();

    let (_stop_message, stdout) = run(&mut gdb, &mut debugger, "aaaa").unwrap();

    assert_eq!(String::from_utf8(stdout).unwrap(), "aaaa")
}

#[test]
fn gdb_detects_normal_exit() {
    let (mut gdb, mut debugger) = started();

    send_command(&mut gdb, &mut debugger, "file vuln").unwrap();

    assert_eq!(run(&mut gdb, &mut debugger, "aaa").unwrap().0, StopReason::ExitedNormally)
}

#[test]
fn gdb_detects_crash_signal() {
    let (mut gdb, mut debugger) = started();

    send_command(&mut gdb, &mut debugger, "file vuln").unwrap();

    assert!(matches!(
        run(
            &mut gdb,
            &mut debugger,
            "AAAAAAAAAAAAAAAAAAAAAAAAAAAAAAAAAAAAAAAAAAAAAAAAAAAAAAAAAAAAAAAAAAAAAAAAAAAAAAAAAAAAA"
        )
        .unwrap()
        .0,
        StopReason::SignalReceived(_)
    ));
}

#[test]
fn gdb_detects_nonzero_exit() {
    let (mut gdb, mut debugger) = started();

    send_command(&mut gdb, &mut debugger, "file vuln").unwrap();

    assert_eq!(
        run(&mut gdb, &mut debugger, "AAAAAAB").unwrap().0,
        StopReason::Exited(ExitedWithCode { exit_code: 10 })
    )
}

#[test]
fn a_run_of_cat_exits_normally_with_its_input_as_output() {
    let (mut gdb, mut debugger) = started();
    send_command(&mut gdb, &mut debugger, "file cat").unwrap();
    let (reason, output) = run(&mut gdb, &mut debugger, "aaaa").unwrap();
    assert_eq!(reason, StopReason::ExitedNormally);
    assert_eq!(output, b"aaaa");
    assert_eq!(gdb.stage(), Stage::Ready);
}

#[test]
fn the_run_command_redirects_both_streams() {
    let (mut gdb, mut debugger) = started();
    run(&mut gdb, &mut debugger, "x").unwrap();
    assert_eq!(debugger.commands.last().unwrap(), "run </proc/77/fd/3 >/proc/77/fd/4");
}

#[test]
fn descriptor_paths_are_spelled_in_decimal() {
    assert_eq!(descriptor_path(0, 0), "/proc/0/fd/0");
    assert_eq!(descriptor_path(4294967295, 2147483647), "/proc/4294967295/fd/2147483647");
    assert_eq!(descriptor_path(1200, -1), "/proc/1200/fd/-1");
    assert_eq!(descriptor_path(10, -2147483648), "/proc/10/fd/-2147483648");
}

#[test]
fn each_command_gets_its_own_reply() {
    let (mut gdb, mut debugger) = started();
    let first = send_command(&mut gdb, &mut debugger, "set width 0").unwrap();
    let second = send_command(&mut gdb, &mut debugger, "set height 0").unwrap();
    assert_eq!(first, "^done\n(gdb) \n");
    assert_eq!(second, "^done\n(gdb) \n");
    assert_eq!(&debugger.commands[4..], ["set width 0", "set height 0"]);
}

#[test]
fn replies_that_arrive_together_are_not_mixed() {
    let (mut gdb, _) = started();
    assert!(matches!(gdb.send_command("first"), Err(IoFailure::WouldBlock)));
    gdb.feed("&\"first\\n\"\n~\"one\"\n^done\n(gdb) \n&\"second\\n\"\n~\"two\"\n^done\n(gdb) \n");
    assert_eq!(gdb.send_command("first").unwrap(), "~\"one\"\n^done\n(gdb) \n");
    assert_eq!(gdb.send_command("second").unwrap(), "~\"two\"\n^done\n(gdb) \n");
    assert_eq!(gdb.take_output(), "first\nsecond\n");
}

#[test]
fn a_session_runs_again_after_a_signal() {
    let (mut gdb, mut debugger) = started();
    let long = "A".repeat(85);
    let (reason, _) = run(&mut gdb, &mut debugger, &long).unwrap();
    assert!(matches!(reason, StopReason::SignalReceived(_)));
    assert_eq!(debugger.commands.last().unwrap(), "kill");
    assert_eq!(gdb.stage(), Stage::Ready);
    let (reason, _) = run(&mut gdb, &mut debugger, "aaa").unwrap();
    assert_eq!(reason, StopReason::ExitedNormally);
}

#[test]
fn no_kill_is_sent_after_an_exit() {
    let (mut gdb, mut debugger) = started();
    run(&mut gdb, &mut debugger, "AAAAAAB").unwrap();
    run(&mut gdb, &mut debugger, "aaa").unwrap();
    assert!(!debugger.commands.iter().any(|c| c == "kill"));
}

#[test]
fn a_reply_is_read_as_it_arrives_piece_by_piece() {
    let (mut gdb, _) = started();
    assert!(matches!(gdb.send_command("info"), Err(IoFailure::WouldBlock)));
    assert_eq!(gdb.stage(), Stage::Command);
    assert_eq!(gdb.take_output(), "info\n");
    for piece in ["&\"in", "fo\\n\"\n~\"a", "\"\n(g", "db) "] {
        gdb.feed(piece);
        assert!(matches!(gdb.send_command("info"), Err(IoFailure::WouldBlock)));
    }
    gdb.feed("\n");
    assert_eq!(gdb.send_command("info").unwrap(), "~\"a\"\n(gdb) \n");
    assert_eq!(gdb.take_output(), "");
    assert_eq!(gdb.stage(), Stage::Ready);
}

#[test]
fn calls_out_of_turn_are_refused() {
    let mut gdb = Gdb::new("target");
    assert!(matches!(gdb.send_command("x"), Err(IoFailure::OutOfTurn)));
    assert!(matches!(gdb.run("a", "b"), Err(RunError::IOError(IoFailure::OutOfTurn))));
    let (mut gdb, _) = started();
    assert!(matches!(gdb.send_command("x"), Err(IoFailure::WouldBlock)));
    assert!(matches!(gdb.run("a", "b"), Err(RunError::IOError(IoFailure::OutOfTurn))));
    assert!(matches!(gdb.start(), Err(GDBSetupError::CommandError(IoFailure::OutOfTurn))));
    let (mut gdb, _) = started();
    assert!(gdb.start().is_ok());
    gdb.shutdown();
    gdb.shutdown();
    assert_eq!(gdb.take_output(), "exit\n");
    assert!(matches!(gdb.send_command("x"), Err(IoFailure::OutOfTurn)));
    assert!(matches!(gdb.start(), Err(GDBSetupError::CommandError(IoFailure::OutOfTurn))));
}

#[test]
fn the_end_of_the_stream_fails_a_waiting_call() {
    let mut gdb = Gdb::new("target");
    gdb.feed("~\"GNU gdb\"\n");
    assert!(matches!(gdb.start(), Err(GDBSetupError::CommandError(IoFailure::WouldBlock))));
    gdb.end_of_stream();
    assert!(matches!(gdb.start(), Err(GDBSetupError::CommandError(IoFailure::EndOfStream))));
    let (mut gdb, _) = started();
    assert!(matches!(gdb.send_command("x"), Err(IoFailure::WouldBlock)));
    gdb.end_of_stream();
    assert!(matches!(gdb.send_command("x"), Err(IoFailure::EndOfStream)));
    let (mut gdb, _) = started();
    gdb.end_of_stream();
    assert!(matches!(gdb.run("a", "b"), Err(RunError::IOError(IoFailure::EndOfStream))));
}

#[test]
fn a_stop_record_that_cannot_be_read_is_a_parse_error() {
    let (mut gdb, _) = started();
    gdb.feed("*stopped,reason=\"breakpoint-hit\"\n(gdb) \n");
    gdb.supply_output(b"dropped".to_vec());
    assert!(matches!(gdb.run("a", "b"), Err(RunError::IOError(IoFailure::WouldBlock))));
    assert_eq!(gdb.stage(), Stage::Collect);
    gdb.supply_output(Vec::new());
    assert!(matches!(gdb.run("a", "b"), Err(RunError::ParseError(ParseError::UnknownReason))));
    assert_eq!(gdb.stage(), Stage::Ready);
    gdb.feed("*stopped\n(gdb) \n");
    gdb.run("a", "b").unwrap_err();
    gdb.supply_output(Vec::new());
    assert!(matches!(gdb.run("a", "b"), Err(RunError::ParseError(ParseError::NotAStopRecord))));
}

#[test]
fn the_stop_record_is_the_last_line_before_the_prompt() {
    let (mut gdb, _) = started();
    gdb.feed("~\"*stopped,reason=\\\"exited\\\"\"\n=x\n*stopped,reason=\"exited\",exit-code=\"01\" \r\n(gdb) \n");
    gdb.run("a", "b").unwrap_err();
    gdb.supply_output(b"out".to_vec());
    assert_eq!(
        gdb.run("a", "b").unwrap(),
        (StopReason::Exited(ExitedWithCode { exit_code: 1 }), b"out".to_vec())
    );
}

#[test]
fn kill_goes_by_the_text_of_the_record() {
    let (mut gdb, _) = started();
    gdb.feed("*stopped,reason=\"signal\\u002dreceived\",signal-name=\"SIGSEGV\",thread-id=\"1\",core=\"0\"\n(gdb) \n");
    gdb.run("a", "b").unwrap_err();
    assert_eq!(gdb.stage(), Stage::Collect);
    assert_eq!(gdb.take_output(), "run <a >b\n");
    gdb.supply_output(Vec::new());
    assert!(matches!(gdb.run("a", "b").unwrap().0, StopReason::SignalReceived(_)));
}

#[test]
fn kill_is_sent_before_the_output_is_collected() {
    let (mut gdb, _) = started();
    gdb.feed("*stopped,reason=\"signal-received\",signal-name=\"SIGABRT\",thread-id=\"1\",core=\"0\"\n(gdb) \n");
    assert!(matches!(gdb.run("in", "out"), Err(RunError::IOError(IoFailure::WouldBlock))));
    assert_eq!(gdb.stage(), Stage::Kill);
    assert_eq!(gdb.take_output(), "run <in >out\nkill\n");
    gdb.feed("&\"kill\\n\"\n^done\n(gdb) \n");
    assert!(matches!(gdb.run("in", "out"), Err(RunError::IOError(IoFailure::WouldBlock))));
    assert_eq!(gdb.stage(), Stage::Collect);
    gdb.supply_output(b"partial".to_vec());
    let (reason, output) = gdb.run("in", "out").unwrap();
    assert!(matches!(reason, StopReason::SignalReceived(_)));
    assert_eq!(output, b"partial");
    assert_eq!(gdb.take_output(), "");
}

#[test]
fn failures_of_the_process_are_carried_as_they_are() {
    let broken = std::io::Error::new(std::io::ErrorKind::BrokenPipe, "gone");
    match RunError::from(IoFailure::Os(broken)) {
        RunError::IOError(IoFailure::Os(e)) => assert_eq!(e.kind(), std::io::ErrorKind::BrokenPipe),
        other => panic!("{:?}", other),
    }
    assert!(matches!(
        RunError::from(ParseError::UnknownReason),
        RunError::ParseError(ParseError::UnknownReason)
    ));
    let missing = std::io::Error::new(std::io::ErrorKind::NotFound, "no debugger");
    let spawn = GDBSetupError::SpawnError(IoFailure::Os(missing));
    assert!(format!("{:?}", spawn).contains("SpawnError"));
    let io = GDBSetupError::IOError(IoFailure::EndOfStream);
    assert!(matches!(io, GDBSetupError::IOError(IoFailure::EndOfStream)));
}

#[test]
fn the_setup_commands_are_sent_one_at_a_time() {
    let mut gdb = Gdb::new("/bin/true");
    assert_eq!(gdb.stage(), Stage::Banner);
    assert!(matches!(gdb.start(), Err(GDBSetupError::CommandError(IoFailure::WouldBlock))));
    assert_eq!(gdb.take_output(), "");
    gdb.feed("(gdb) \n");
    let expected = [
        (Stage::Pagination, "set pagination off\n"),
        (Stage::Debuginfod, "set debuginfod enabled off\n"),
        (Stage::Confirm, "set confirm off\n"),
        (Stage::File, "file /bin/true\n"),
    ];
    for (stage, command) in expected {
        assert!(matches!(gdb.start(), Err(GDBSetupError::CommandError(IoFailure::WouldBlock))));
        assert_eq!(gdb.stage(), stage);
        assert_eq!(gdb.take_output(), command);
        gdb.feed("&\"echo\"\n^done\n(gdb) \n");
    }
    assert!(gdb.start().is_ok());
    assert_eq!(gdb.stage(), Stage::Ready);
    assert_eq!(gdb.take_output(), "");
}

#[test]
fn the_whole_greeting_may_arrive_at_once() {
    let mut gdb = Gdb::new("t");
    let reply = "&\"echo\"\n^done\n(gdb) \n";
    gdb.feed(&format!("~\"hello\"\n(gdb) \n{0}{0}{0}{0}left over\n", reply));
    assert!(gdb.start().is_ok());
    assert_eq!(
        gdb.take_output(),
        "set pagination off\nset debuginfod enabled off\nset confirm off\nfile t\n"
    );
    gdb.end_of_stream();
    assert!(matches!(gdb.send_command("x"), Err(IoFailure::EndOfStream)));
}
