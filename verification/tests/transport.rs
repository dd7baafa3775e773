use gdb_bridge::transport::{IoFailure, ProcessIO};

#[test]
fn read_line_waits_for_a_newline() {
    let mut io = ProcessIO::new();
    io.feed("abc");
    assert!(matches!(io.read_line(), Err(IoFailure::WouldBlock)));
    io.feed("def\nrest");
    assert_eq!(io.read_line().unwrap(), "abcdef\n");
    assert!(matches!(io.read_line(), Err(IoFailure::WouldBlock)));
    io.end_of_stream();
    assert!(matches!(io.read_line(), Err(IoFailure::EndOfStream)));
    assert_eq!(io.read_all().unwrap(), b"rest".to_vec());
}

#[test]
fn written_lines_end_in_a_newline() {
    let mut io = ProcessIO::new();
    io.writeln("set confirm off");
    io.write("ki");
    io.write("ll");
    io.writeln("");
    assert_eq!(io.take_output(), "set confirm off\nkill\n");
    assert_eq!(io.take_output(), "");
}

#[test]
fn read_until_stops_at_the_first_line_with_the_prefix() {
    let mut io = ProcessIO::new();
    io.feed("~\"(gdb) in the middle\"\n^done\n(gdb) \nnext\n(gdb) \n");
    assert_eq!(io.read_until("(gdb)").unwrap(), "~\"(gdb) in the middle\"\n^done\n(gdb) \n");
    assert_eq!(io.read_until("(gdb)").unwrap(), "next\n(gdb) \n");
    assert!(matches!(io.read_until("(gdb)"), Err(IoFailure::WouldBlock)));
}

#[test]
fn read_until_consumes_nothing_until_the_line_is_whole() {
    let mut io = ProcessIO::new();
    io.feed("a\nb\n(gdb");
    assert!(matches!(io.read_until("(gdb)"), Err(IoFailure::WouldBlock)));
    io.feed(")");
    assert!(matches!(io.read_until("(gdb)"), Err(IoFailure::WouldBlock)));
    io.feed(" \n");
    assert_eq!(io.read_until("(gdb)").unwrap(), "a\nb\n(gdb) \n");
}

#[test]
fn read_until_fails_at_the_end_of_the_stream() {
    let mut io = ProcessIO::new();
    io.feed("a\nb\n(gdb)");
    io.end_of_stream();
    assert!(matches!(io.read_until("(gdb)"), Err(IoFailure::EndOfStream)));
    assert_eq!(io.read_line().unwrap(), "a\n");
    assert_eq!(io.read_all().unwrap(), b"b\n(gdb)".to_vec());
    assert_eq!(io.read_all().unwrap(), Vec::<u8>::new());
}

#[test]
fn an_empty_prefix_matches_the_first_line() {
    let mut io = ProcessIO::new();
    io.feed("x\ny\n");
    assert_eq!(io.read_until("").unwrap(), "x\n");
}

#[test]
fn read_all_waits_for_the_end_of_the_stream() {
    let mut io = ProcessIO::new();
    io.feed("héllo\n");
    assert!(matches!(io.read_all(), Err(IoFailure::WouldBlock)));
    io.end_of_stream();
    assert_eq!(io.read_all().unwrap(), "héllo\n".as_bytes().to_vec());
}

#[test]
fn lines_may_hold_any_characters() {
    let mut io = ProcessIO::new();
    io.feed("~\"héllo – wörld\"\n(gdb) \n");
    assert_eq!(io.read_line().unwrap(), "~\"héllo – wörld\"\n");
    assert_eq!(io.read_until("(gdb)").unwrap(), "(gdb) \n");
}
