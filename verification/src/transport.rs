//! The line-synchronous transport between a session and the debugger process.
//!
//! The transport holds the text that the session has written and the process has
//! not yet been given, and the text that the process has produced and the session
//! has not yet read. Whoever owns the process moves text between the two sides:
//! it drains [`ProcessIO::take_output`] into the process's input, and hands what
//! the process prints to [`ProcessIO::feed`]. A read that needs more text than
//! has arrived fails with [`IoFailure::WouldBlock`] and consumes nothing, so it
//! can be repeated once more text has been fed.

use vstd::prelude::*;
use vstd::string::StrSliceExecFns;
use vstd::string::StringExecFns;
use crate::text::chars_of;
use crate::text::matches_at;

verus! {

/// `std::io::Error`: what the operating system reports of a failed read, write
/// or spawn. The library only carries such a value; it never looks into one.
#[verifier::external_type_specification]
#[verifier::external_body]
pub struct ExIoError(std::io::Error);

/// Why a transport operation did not deliver.
#[derive(Debug)]
pub enum IoFailure {
    /// What has arrived so far does not hold what the call waits for.
    WouldBlock,
    /// The process closed its output before what the read waits for arrived.
    EndOfStream,
    /// The session is at a stage that does not admit the call.
    OutOfTurn,
    /// Moving text to or from the process failed.
    Os(std::io::Error),
}

/// What a transport holds.
pub struct Channel {
    /// Written by the session, not yet given to the process.
    pub outgoing: Seq<char>,
    /// Produced by the process, not yet read by the session.
    pub incoming: Seq<char>,
    /// Whether the process has closed its output.
    pub closed: bool,
}

/// The length of the first line of `s`, its newline included, if `s` holds a newline.
pub open spec fn line_len(s: Seq<char>) -> Option<nat>
    decreases s.len(),
{
    if s.len() == 0 {
        None
    } else if s[0] == '\n' {
        Some(1nat)
    } else {
        match line_len(s.skip(1)) {
            Some(n) => Some(n + 1),
            None => None,
        }
    }
}

/// The length of the shortest run of whole lines at the start of `s` whose last
/// line starts with `prefix`, if there is such a run.
pub open spec fn reply_len(s: Seq<char>, prefix: Seq<char>) -> Option<nat>
    decreases s.len(),
    via reply_len_decreases
{
    match line_len(s) {
        None => None,
        Some(n) => if prefix.is_prefix_of(s.take(n as int)) {
            Some(n)
        } else {
            match reply_len(s.skip(n as int), prefix) {
                Some(m) => Some(n + m),
                None => None,
            }
        },
    }
}

#[via_fn]
proof fn reply_len_decreases(s: Seq<char>, prefix: Seq<char>) {
    lemma_line_len(s);
}

/// What a read that found nothing to deliver reports.
pub open spec fn starved(closed: bool) -> IoFailure {
    if closed {
        IoFailure::EndOfStream
    } else {
        IoFailure::WouldBlock
    }
}

/// `line_len` finds the first newline: it is `Some(i + 1)` exactly when `s[i]` is
/// the first newline of `s`, and `None` exactly when `s` holds no newline.
pub proof fn lemma_line_len(s: Seq<char>)
    ensures
        match line_len(s) {
            Some(n) => 1 <= n <= s.len() && s[n - 1] == '\n' && forall|j: int|
                0 <= j < n - 1 ==> s[j] != '\n',
            None => forall|j: int| 0 <= j < s.len() ==> s[j] != '\n',
        },
    decreases s.len(),
{
    if s.len() > 0 && s[0] != '\n' {
        let rest = s.skip(1);
        lemma_line_len(rest);
        match line_len(rest) {
            Some(m) => {
                assert forall|j: int| 0 <= j < m implies s[j] != '\n' by {
                    if j > 0 {
                        assert(rest[j - 1] == s[j]);
                    }
                }
                assert(rest[m - 1] == s[m as int]);
            },
            None => {
                assert forall|j: int| 0 <= j < s.len() implies s[j] != '\n' by {
                    if j > 0 {
                        assert(rest[j - 1] == s[j]);
                    }
                }
            },
        }
    }
}

/// The first newline of `s` at index `i` fixes `line_len(s)`.
pub proof fn lemma_line_len_at(s: Seq<char>, i: int)
    requires
        0 <= i < s.len(),
        s[i] == '\n',
        forall|j: int| 0 <= j < i ==> s[j] != '\n',
    ensures
        line_len(s) == Some((i + 1) as nat),
{
    lemma_line_len(s);
}

/// A text without a newline holds no line.
pub proof fn lemma_line_len_none(s: Seq<char>)
    requires
        forall|j: int| 0 <= j < s.len() ==> s[j] != '\n',
    ensures
        line_len(s) is None,
{
    lemma_line_len(s);
}

/// A line read from the front of a longer text is the line read alone: what
/// follows a whole line has no part in it.
pub proof fn lemma_line_then_rest(line: Seq<char>, rest: Seq<char>)
    requires
        line_len(line) == Some(line.len()),
    ensures
        line_len(line + rest) == Some(line.len()),
        (line + rest).take(line.len() as int) == line,
        (line + rest).skip(line.len() as int) == rest,
{
    lemma_line_len(line);
    let whole = line + rest;
    assert forall|j: int| 0 <= j < line.len() - 1 implies whole[j] != '\n' by {
        assert(whole[j] == line[j]);
    }
    assert(whole[line.len() - 1] == line[line.len() - 1]);
    lemma_line_len_at(whole, line.len() - 1);
    assert(whole.take(line.len() as int) =~= line);
    assert(whole.skip(line.len() as int) =~= rest);
}

/// A reply read from the front of a longer text is the reply read alone: what
/// follows the line that ends a reply has no part in it.
pub proof fn lemma_reply_then_rest(reply: Seq<char>, rest: Seq<char>, prefix: Seq<char>)
    requires
        reply_len(reply, prefix) == Some(reply.len()),
    ensures
        reply_len(reply + rest, prefix) == Some(reply.len()),
        (reply + rest).take(reply.len() as int) == reply,
        (reply + rest).skip(reply.len() as int) == rest,
    decreases reply.len(),
{
    let whole = reply + rest;
    assert(whole.take(reply.len() as int) =~= reply);
    assert(whole.skip(reply.len() as int) =~= rest);
    lemma_line_len(reply);
    let n = line_len(reply)->0;
    assert forall|j: int| 0 <= j < n - 1 implies whole[j] != '\n' by {
        assert(whole[j] == reply[j]);
    }
    assert(whole[n - 1] == reply[n - 1]);
    lemma_line_len_at(whole, n - 1);
    assert(whole.take(n as int) =~= reply.take(n as int));
    if !prefix.is_prefix_of(reply.take(n as int)) {
        assert(whole.skip(n as int) =~= reply.skip(n as int) + rest);
        lemma_reply_then_rest(reply.skip(n as int), rest, prefix);
    }
}

/// What `read_until` hands out is a reply by itself: it is made of whole lines,
/// its last line starts with `prefix`, and none of its lines before that does.
pub proof fn lemma_reply_is_whole(s: Seq<char>, prefix: Seq<char>)
    requires
        reply_len(s, prefix) is Some,
    ensures
        ({
            let n = reply_len(s, prefix)->0 as int;
            &&& 0 < n <= s.len()
            &&& s[n - 1] == '\n'
            &&& reply_len(s.take(n), prefix) == Some(n as nat)
        }),
    decreases s.len(),
{
    lemma_line_len(s);
    let k = line_len(s)->0 as int;
    let n = reply_len(s, prefix)->0 as int;
    if prefix.is_prefix_of(s.take(k)) {
        let head = s.take(k);
        assert forall|j: int| 0 <= j < k - 1 implies head[j] != '\n' by {
            assert(head[j] == s[j]);
        }
        assert(head[k - 1] == s[k - 1]);
        lemma_line_len_at(head, k - 1);
        assert(head.take(k) =~= head);
    } else {
        let tail = s.skip(k);
        lemma_reply_is_whole(tail, prefix);
        let m = reply_len(tail, prefix)->0 as int;
        let head = s.take(n);
        assert(n == k + m);
        assert(tail[m - 1] == s[n - 1]);
        assert forall|j: int| 0 <= j < k - 1 implies head[j] != '\n' by {
            assert(head[j] == s[j]);
        }
        assert(head[k - 1] == s[k - 1]);
        lemma_line_len_at(head, k - 1);
        assert(head.take(k) =~= s.take(k));
        assert(head.skip(k) =~= tail.take(m));
    }
}

/// Whether `s` holds a whole line from index `b` up to index `e`: the line
/// starts at the start of `s` or after a newline, and its only newline is its
/// last character.
pub open spec fn is_line(s: Seq<char>, b: int, e: int) -> bool {
    &&& 0 <= b < e <= s.len()
    &&& b == 0 || s[b - 1] == '\n'
    &&& s[e - 1] == '\n'
    &&& forall|j: int| b <= j < e - 1 ==> s[j] != '\n'
}

/// Whether the whole line of `s` from `b` up to `e` starts with `prefix`.
pub open spec fn is_match(s: Seq<char>, prefix: Seq<char>, b: int, e: int) -> bool {
    is_line(s, b, e) && prefix.is_prefix_of(s.subrange(b, e))
}

/// `read_until` stops at the first whole line that starts with `prefix`, and
/// only there: a reply ends with such a line and holds no other, and where
/// there is no reply, no whole line starts with `prefix`.
pub proof fn lemma_reply_ends_at_first_match(s: Seq<char>, prefix: Seq<char>)
    ensures
        match reply_len(s, prefix) {
            Some(n) => {
                &&& exists|b: int| is_match(s, prefix, b, n as int)
                &&& forall|b: int, e: int| e < n ==> !is_match(s, prefix, b, e)
            },
            None => forall|b: int, e: int| !is_match(s, prefix, b, e),
        },
    decreases s.len(),
{
    lemma_line_len(s);
    match line_len(s) {
        None => {},
        Some(first) => {
            let k = first as int;
            assert(is_line(s, 0, k));
            assert(s.take(k) =~= s.subrange(0, k));
            let tail = s.skip(k);
            let here = prefix.is_prefix_of(s.take(k));
            if !here {
                lemma_reply_ends_at_first_match(tail, prefix);
            }
            assert forall|b: int, e: int| #[trigger] is_line(s, b, e) implies (b == 0 && e == k)
                || (b >= k && is_line(tail, b - k, e - k) && s.subrange(b, e) == tail.subrange(
                b - k,
                e - k,
            )) by {
                if b == 0 {
                    if e < k {
                        assert(s[e - 1] != '\n');
                    } else if e > k {
                        assert(s[k - 1] != '\n');
                    }
                } else {
                    if b < k {
                        assert(s[b - 1] != '\n');
                    }
                    assert forall|j: int| b - k <= j < e - k - 1 implies tail[j] != '\n' by {
                        assert(tail[j] == s[j + k]);
                    }
                    assert(tail[e - k - 1] == s[e - 1]);
                    if b > k {
                        assert(tail[b - k - 1] == s[b - 1]);
                    }
                    assert(s.subrange(b, e) =~= tail.subrange(b - k, e - k));
                }
            }
            match reply_len(s, prefix) {
                Some(n) => {
                    if here {
                        assert(is_match(s, prefix, 0, n as int));
                    } else {
                        let m = reply_len(tail, prefix)->0 as int;
                        let b = choose|b: int| is_match(tail, prefix, b, m);
                        assert forall|j: int| b + k <= j < m + k - 1 implies s[j] != '\n' by {
                            assert(tail[j - k] == s[j]);
                        }
                        assert(tail[m - 1] == s[m + k - 1]);
                        if b > 0 {
                            assert(tail[b - 1] == s[b + k - 1]);
                        }
                        assert(is_line(s, b + k, m + k));
                        assert(s.subrange(b + k, m + k) =~= tail.subrange(b, m));
                        assert(is_match(s, prefix, b + k, n as int));
                    }
                    assert forall|b: int, e: int| e < n implies !is_match(s, prefix, b, e) by {
                        if is_line(s, b, e) && b != 0 {
                            assert(!is_match(tail, prefix, b - k, e - k));
                        }
                    }
                },
                None => {
                    assert forall|b: int, e: int| !is_match(s, prefix, b, e) by {
                        if is_line(s, b, e) && b != 0 {
                            assert(!is_match(tail, prefix, b - k, e - k));
                        }
                    }
                },
            }
        },
    }
}

/// More text never takes back a reply: once a reply has arrived, `read_until`
/// hands out the same reply whatever arrives after it.
pub proof fn lemma_reply_stays(s: Seq<char>, more: Seq<char>, prefix: Seq<char>)
    requires
        reply_len(s, prefix) is Some,
    ensures
        reply_len(s + more, prefix) == reply_len(s, prefix),
        (s + more).take(reply_len(s, prefix)->0 as int) == s.take(reply_len(s, prefix)->0 as int),
        (s + more).skip(reply_len(s, prefix)->0 as int) == s.skip(reply_len(s, prefix)->0 as int)
            + more,
{
    lemma_reply_is_whole(s, prefix);
    let n = reply_len(s, prefix)->0 as int;
    assert(s + more =~= s.take(n) + (s.skip(n) + more));
    lemma_reply_then_rest(s.take(n), s.skip(n) + more, prefix);
}

/// More text never takes back a line: once a line has arrived, `read_line` hands
/// out the same line whatever arrives after it.
pub proof fn lemma_line_stays(s: Seq<char>, more: Seq<char>)
    requires
        line_len(s) is Some,
    ensures
        line_len(s + more) == line_len(s),
        (s + more).take(line_len(s)->0 as int) == s.take(line_len(s)->0 as int),
        (s + more).skip(line_len(s)->0 as int) == s.skip(line_len(s)->0 as int) + more,
{
    lemma_line_len(s);
    let n = line_len(s)->0 as int;
    let whole = s + more;
    assert forall|j: int| 0 <= j < n - 1 implies whole[j] != '\n' by {
        assert(whole[j] == s[j]);
    }
    assert(whole[n - 1] == s[n - 1]);
    lemma_line_len_at(whole, n - 1);
    assert(whole.take(n) =~= s.take(n));
    assert(whole.skip(n) =~= s.skip(n) + more);
}

/// Finds the end of the line that starts at index `from`.
fn line_end(text: &Vec<char>, from: usize) -> (end: Option<usize>)
    requires
        from <= text.len(),
    ensures
        match end {
            Some(e) => from < e <= text.len() && line_len(text@.skip(from as int)) == Some(
                (e - from) as nat,
            ),
            None => line_len(text@.skip(from as int)) is None,
        },
{
    let mut i: usize = from;
    while i < text.len()
        invariant
            from <= i <= text.len(),
            forall|j: int| from <= j < i ==> text@[j] != '\n',
        decreases text.len() - i,
    {
        if text[i] == '\n' {
            proof {
                lemma_line_len_at(text@.skip(from as int), i - from);
            }
            return Some(i + 1);
        }
        i += 1;
    }
    proof {
        lemma_line_len_none(text@.skip(from as int));
    }
    None
}

/// Finds the end of the first line of `text` that starts with `prefix`.
fn reply_end(text: &Vec<char>, prefix: &Vec<char>) -> (end: Option<usize>)
    ensures
        match end {
            Some(e) => e <= text.len() && reply_len(text@, prefix@) == Some(e as nat),
            None => reply_len(text@, prefix@) is None,
        },
{
    let mut start: usize = 0;
    assert(text@.skip(0) =~= text@);
    loop
        invariant
            start <= text.len(),
            reply_len(text@, prefix@) == match reply_len(text@.skip(start as int), prefix@) {
                Some(m) => Some((m + start) as nat),
                None => None,
            },
        decreases text.len() - start,
    {
        match line_end(text, start) {
            None => {
                return None;
            },
            Some(e) => {
                let found = prefix.len() <= e - start && matches_at(text, start, prefix);
                proof {
                    let rest = text@.skip(start as int);
                    let line = rest.take(e - start);
                    assert(rest.skip(e - start) =~= text@.skip(e as int));
                    if prefix.len() <= e - start {
                        assert(line.subrange(0, prefix@.len() as int) =~= text@.subrange(
                            start as int,
                            start + prefix@.len(),
                        ));
                    }
                    assert(found == prefix@.is_prefix_of(line));
                }
                if found {
                    return Some(e);
                }
                start = e;
            },
        }
    }
}

/// The two directions of a debugger process's text, as the session sees them.
pub struct ProcessIO {
    stdin: String,
    stdout: String,
    closed: bool,
}

impl View for ProcessIO {
    type V = Channel;

    closed spec fn view(&self) -> Channel {
        Channel { outgoing: self.stdin@, incoming: self.stdout@, closed: self.closed }
    }
}

impl ProcessIO {
    /// A transport on which nothing was written and nothing has arrived.
    pub fn new() -> (io: Self)
        ensures
            io@ == (Channel { outgoing: Seq::empty(), incoming: Seq::empty(), closed: false }),
    {
        ProcessIO { stdin: String::new(), stdout: String::new(), closed: false }
    }

    /// Writes `data` and a newline.
    pub fn writeln(&mut self, data: &str)
        ensures
            final(self)@ == (Channel {
                outgoing: old(self)@.outgoing + data@ + seq!['\n'],
                ..old(self)@
            }),
    {
        self.stdin.append(data);
        self.stdin.append("\n");
        proof {
            reveal_strlit("\n");
            assert("\n"@ =~= seq!['\n']);
        }
    }

    /// Writes `data` as it is.
    pub fn write(&mut self, data: &str)
        ensures
            final(self)@ == (Channel { outgoing: old(self)@.outgoing + data@, ..old(self)@ }),
    {
        self.stdin.append(data);
    }

    /// Takes the first `n` characters of what has arrived.
    fn take_incoming(&mut self, n: usize) -> (head: String)
        requires
            n <= old(self)@.incoming.len(),
        ensures
            head@ == old(self)@.incoming.take(n as int),
            final(self)@ == (Channel {
                incoming: old(self)@.incoming.skip(n as int),
                ..old(self)@
            }),
    {
        let total = self.stdout.as_str().unicode_len();
        let head = self.stdout.as_str().substring_char(0, n).to_owned();
        let rest = self.stdout.as_str().substring_char(n, total).to_owned();
        self.stdout = rest;
        head
    }

    /// Reads one line, its newline included.
    ///
    /// Succeeds exactly when a newline has arrived. Otherwise nothing is consumed,
    /// and the failure is `EndOfStream` if the process closed its output and
    /// `WouldBlock` if it did not.
    pub fn read_line(&mut self) -> (r: Result<String, IoFailure>)
        ensures
            match line_len(old(self)@.incoming) {
                Some(n) => r matches Ok(line) && line@ == old(self)@.incoming.take(n as int)
                    && final(self)@ == (Channel {
                    incoming: old(self)@.incoming.skip(n as int),
                    ..old(self)@
                }),
                None => r matches Err(e) && e == starved(old(self)@.closed) && final(self)@ == old(
                    self,
                )@,
            },
    {
        let text = chars_of(self.stdout.as_str());
        proof {
            assert(text@.skip(0) =~= text@);
        }
        match line_end(&text, 0) {
            Some(e) => Ok(self.take_incoming(e)),
            None => Err(self.starved()),
        }
    }

    /// Reads whole lines up to and including the first one that starts with `prefix`.
    ///
    /// Succeeds exactly when such a line has arrived. Otherwise nothing is
    /// consumed, and the failure is `EndOfStream` if the process closed its output
    /// and `WouldBlock` if it did not.
    pub fn read_until(&mut self, prefix: &str) -> (r: Result<String, IoFailure>)
        ensures
            match reply_len(old(self)@.incoming, prefix@) {
                Some(n) => r matches Ok(buf) && buf@ == old(self)@.incoming.take(n as int)
                    && final(self)@ == (Channel {
                    incoming: old(self)@.incoming.skip(n as int),
                    ..old(self)@
                }),
                None => r matches Err(e) && e == starved(old(self)@.closed) && final(self)@ == old(
                    self,
                )@,
            },
    {
        let text = chars_of(self.stdout.as_str());
        let wanted = chars_of(prefix);
        match reply_end(&text, &wanted) {
            Some(e) => Ok(self.take_incoming(e)),
            None => Err(self.starved()),
        }
    }

    /// Reads everything up to the end of the process's output, as bytes.
    ///
    /// Succeeds exactly when the process has closed its output.
    pub fn read_all(&mut self) -> (r: Result<Vec<u8>, IoFailure>)
        ensures
            if old(self)@.closed {
                r matches Ok(bytes) && bytes@ == vstd::utf8::encode_utf8(old(self)@.incoming)
                    && final(self)@ == (Channel { incoming: Seq::empty(), ..old(self)@ })
            } else {
                r matches Err(e) && e == IoFailure::WouldBlock && final(self)@ == old(self)@
            },
    {
        if self.closed {
            let bytes = self.stdout.as_str().as_bytes_vec();
            self.stdout = String::new();
            Ok(bytes)
        } else {
            Err(IoFailure::WouldBlock)
        }
    }

    /// The failure of a read that found nothing to deliver.
    fn starved(&self) -> (e: IoFailure)
        ensures
            e == starved(self@.closed),
    {
        if self.closed {
            IoFailure::EndOfStream
        } else {
            IoFailure::WouldBlock
        }
    }

    /// Hands over what the session has written since the last call, for delivery
    /// to the process.
    pub fn take_output(&mut self) -> (text: String)
        ensures
            text@ == old(self)@.outgoing,
            final(self)@ == (Channel { outgoing: Seq::empty(), ..old(self)@ }),
    {
        let text = self.stdin.as_str().to_owned();
        self.stdin = String::new();
        text
    }

    /// Records text that the process has produced.
    pub fn feed(&mut self, text: &str)
        ensures
            final(self)@ == (Channel { incoming: old(self)@.incoming + text@, ..old(self)@ }),
    {
        self.stdout.append(text);
    }

    /// Records that the process has closed its output.
    pub fn end_of_stream(&mut self)
        ensures
            final(self)@ == (Channel { closed: true, ..old(self)@ }),
    {
        self.closed = true;
    }
}

} // verus!
