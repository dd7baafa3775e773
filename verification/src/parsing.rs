//! Turning the debugger's stop record into a typed stop reason.
//!
//! A stop record is one line such as
//! `*stopped,reason="exited",exit-code="012"`. It is almost a JSON object: only
//! its keys are bare. [`transform_to_json`] quotes the keys and wraps the record
//! in braces, `serde_json` reads the result, and [`decode_stop_reason`] picks the
//! stop reason out of the members.

use vstd::prelude::*;
use vstd::string::StrSliceExecFns;
use vstd::string::StringExecFns;
use crate::de_octal::deserialize_number_from_octal_str;
use crate::de_octal::deserialize_number_from_string;
use crate::de_octal::unsigned_of;
use crate::json::find_member;
use crate::json::json_members;
use crate::json::member;
use crate::json::parse_object;
use crate::json::JsonMember;
use crate::json::JsonValue;
use crate::text::chars_of;
use crate::text::matches_at;

verus! {

/// The text that opens every stop record, its separator included.
pub open spec fn stop_marker() -> Seq<char> {
    seq!['*', 's', 't', 'o', 'p', 'p', 'e', 'd', ',']
}

/// The number of characters of the stop marker.
pub const MARKER_LEN: usize = 9;

/// Whether `c` can stand in a bare key: a lower-case letter or a hyphen.
pub open spec fn is_key_char(c: char) -> bool {
    ('a' <= c <= 'z') || c == '-'
}

/// The length of the longest run of key characters at the start of `s`.
pub open spec fn key_len(s: Seq<char>) -> nat
    decreases s.len(),
{
    if s.len() > 0 && is_key_char(s[0]) {
        1 + key_len(s.skip(1))
    } else {
        0
    }
}

/// `s` with every bare key quoted: wherever a run of key characters that cannot
/// be extended to the left is followed by `=`, the run is put in double quotes
/// and the `=` becomes `:`. Everything else stays as it is.
pub open spec fn quote_keys(s: Seq<char>) -> Seq<char>
    decreases s.len(),
{
    if s.len() == 0 {
        s
    } else {
        let n = key_len(s) as int;
        if 0 < n < s.len() && s[n] == '=' {
            seq!['"'] + s.take(n) + seq!['"', ':'] + quote_keys(s.skip(n + 1))
        } else {
            seq![s[0]] + quote_keys(s.skip(1))
        }
    }
}

/// The JSON text for a stop record: what follows the marker, with its keys
/// quoted, in braces.
pub open spec fn normalized(message: Seq<char>) -> Seq<char> {
    seq!['{'] + quote_keys(message.skip(stop_marker().len() as int)) + seq!['}']
}

/// The run of key characters at the start of `s` is as long as `key_len` says:
/// it holds key characters only, and what follows it is none.
pub proof fn lemma_key_len(s: Seq<char>)
    ensures
        key_len(s) <= s.len(),
        forall|j: int| 0 <= j < key_len(s) ==> is_key_char(s[j]),
        key_len(s) < s.len() ==> !is_key_char(s[key_len(s) as int]),
    decreases s.len(),
{
    if s.len() > 0 && is_key_char(s[0]) {
        let rest = s.skip(1);
        lemma_key_len(rest);
        assert forall|j: int| 0 <= j < key_len(s) implies is_key_char(s[j]) by {
            if j > 0 {
                assert(rest[j - 1] == s[j]);
            }
        }
        if key_len(s) < s.len() {
            assert(rest[key_len(rest) as int] == s[key_len(s) as int]);
        }
    }
}

/// A run of key characters that ends before a character that is none is the
/// longest one.
proof fn lemma_key_len_is(s: Seq<char>, n: int)
    requires
        0 <= n <= s.len(),
        forall|j: int| 0 <= j < n ==> is_key_char(s[j]),
        n < s.len() ==> !is_key_char(s[n]),
    ensures
        key_len(s) == n,
    decreases n,
{
    if n > 0 {
        let rest = s.skip(1);
        assert forall|j: int| 0 <= j < n - 1 implies is_key_char(rest[j]) by {
            assert(rest[j] == s[j + 1]);
        }
        if n < s.len() {
            assert(rest[n - 1] == s[n]);
        }
        lemma_key_len_is(rest, n - 1);
    }
}

/// One `key=value` pair of a stop record. The value is all the text up to the
/// next key of the record, the separator included.
pub struct Pair {
    pub key: Seq<char>,
    pub value: Seq<char>,
}

/// Whether `k` is a bare key: one or more key characters.
pub open spec fn is_key(k: Seq<char>) -> bool {
    k.len() > 0 && forall|j: int| 0 <= j < k.len() ==> is_key_char(k[j])
}

/// Whether a bare key of `v` ends at index `j`: a `=` stands there, after a key
/// character.
pub open spec fn key_ends_at(v: Seq<char>, j: int) -> bool {
    0 < j < v.len() && v[j] == '=' && is_key_char(v[j - 1])
}

/// Whether `v` holds no bare key.
pub open spec fn is_plain(v: Seq<char>) -> bool {
    forall|j: int| !key_ends_at(v, j)
}

/// Whether `pairs` are the pairs of a record: the keys are bare keys, no value
/// holds a bare key, and no value but the last ends in a key character, which
/// would run into the key that follows.
pub open spec fn is_record(pairs: Seq<Pair>) -> bool {
    forall|i: int|
        0 <= i < pairs.len() ==> {
            &&& is_key(#[trigger] pairs[i].key)
            &&& is_plain(pairs[i].value)
            &&& (i + 1 < pairs.len() && pairs[i].value.len() > 0 ==> !is_key_char(
                pairs[i].value.last(),
            ))
        }
}

/// The pairs as the debugger writes them: `key=value`, one after the other.
pub open spec fn wire_text(pairs: Seq<Pair>) -> Seq<char>
    decreases pairs.len(),
{
    if pairs.len() == 0 {
        Seq::empty()
    } else {
        pairs[0].key + seq!['='] + pairs[0].value + wire_text(pairs.skip(1))
    }
}

/// The pairs as JSON writes them: `"key":value`, one after the other.
pub open spec fn json_text(pairs: Seq<Pair>) -> Seq<char>
    decreases pairs.len(),
{
    if pairs.len() == 0 {
        Seq::empty()
    } else {
        seq!['"'] + pairs[0].key + seq!['"', ':'] + pairs[0].value + json_text(pairs.skip(1))
    }
}

/// Text without a bare key is left as it is, whatever follows it, unless it
/// ends in a key character and more text follows.
proof fn lemma_plain_is_kept(v: Seq<char>, tail: Seq<char>)
    requires
        is_plain(v),
        v.len() == 0 || tail.len() == 0 || !is_key_char(v.last()),
    ensures
        quote_keys(v + tail) == v + quote_keys(tail),
    decreases v.len(),
{
    let s = v + tail;
    if v.len() == 0 {
        assert(s =~= tail);
        assert(v + quote_keys(tail) =~= quote_keys(tail));
    } else {
        lemma_key_len(s);
        let n = key_len(s) as int;
        if 0 < n < s.len() && s[n] == '=' {
            assert(is_key_char(s[n - 1]));
            if n < v.len() {
                assert(v[n] == s[n] && v[n - 1] == s[n - 1]);
                assert(key_ends_at(v, n));
            } else {
                assert(is_key_char(s[v.len() - 1]));
                assert(s[v.len() - 1] == v.last());
                assert(s =~= v);
            }
            assert(false);
        }
        let rest = v.skip(1);
        assert(s.skip(1) =~= rest + tail);
        assert forall|j: int| !key_ends_at(rest, j) by {
            if 0 < j < rest.len() {
                assert(rest[j] == v[j + 1] && rest[j - 1] == v[j]);
                assert(!key_ends_at(v, j + 1));
            }
        }
        if rest.len() > 0 {
            assert(rest.last() == v.last());
        }
        lemma_plain_is_kept(rest, tail);
        assert(seq![s[0]] + (rest + quote_keys(tail)) =~= v + quote_keys(tail));
    }
}

/// A bare key and the `=` after it become the key in quotes and a colon.
proof fn lemma_key_is_quoted(k: Seq<char>, tail: Seq<char>)
    requires
        is_key(k),
    ensures
        quote_keys(k + seq!['='] + tail) == seq!['"'] + k + seq!['"', ':'] + quote_keys(tail),
{
    let s = k + seq!['='] + tail;
    let n = k.len() as int;
    assert forall|j: int| 0 <= j < n implies is_key_char(s[j]) by {
        assert(s[j] == k[j]);
    }
    assert(s[n] == '=');
    lemma_key_len_is(s, n);
    assert(s.take(n) =~= k);
    assert(s.skip(n + 1) =~= tail);
}

/// Quoting the keys of a record gives its pairs as JSON writes them: every key
/// is quoted, every `=` after a key is a colon, and every value is as it was.
pub proof fn lemma_record_keys_are_quoted(pairs: Seq<Pair>)
    requires
        is_record(pairs),
    ensures
        quote_keys(wire_text(pairs)) == json_text(pairs),
    decreases pairs.len(),
{
    if pairs.len() > 0 {
        let rest = pairs.skip(1);
        assert forall|i: int| 0 <= i < rest.len() implies {
            &&& is_key(#[trigger] rest[i].key)
            &&& is_plain(rest[i].value)
            &&& (i + 1 < rest.len() && rest[i].value.len() > 0 ==> !is_key_char(
                rest[i].value.last(),
            ))
        } by {
            assert(rest[i] == pairs[i + 1]);
            assert(is_key(pairs[i + 1].key));
        }
        lemma_record_keys_are_quoted(rest);
        let key = pairs[0].key;
        let value = pairs[0].value;
        let more = wire_text(rest);
        assert(is_key(pairs[0].key));
        if rest.len() == 0 {
            assert(more.len() == 0);
        }
        assert(wire_text(pairs) =~= key + seq!['='] + (value + more));
        lemma_key_is_quoted(key, value + more);
        lemma_plain_is_kept(value, more);
        assert(json_text(pairs) =~= seq!['"'] + key + seq!['"', ':'] + (value + json_text(rest)));
    }
}

/// The JSON text for a stop record is its pairs as JSON writes them, in braces.
pub proof fn lemma_record_is_normalized(pairs: Seq<Pair>)
    requires
        is_record(pairs),
    ensures
        normalized(stop_marker() + wire_text(pairs)) == seq!['{'] + json_text(pairs) + seq!['}'],
{
    lemma_record_keys_are_quoted(pairs);
    assert((stop_marker() + wire_text(pairs)).skip(stop_marker().len() as int) =~= wire_text(
        pairs,
    ));
}

/// Finds the end of the run of key characters that starts at index `from`.
fn key_end(chars: &Vec<char>, from: usize) -> (end: usize)
    requires
        from <= chars.len(),
    ensures
        from <= end <= chars.len(),
        end - from == key_len(chars@.skip(from as int)),
{
    let mut j: usize = from;
    while j < chars.len() && (('a' <= chars[j] && chars[j] <= 'z') || chars[j] == '-')
        invariant
            from <= j <= chars.len(),
            key_len(chars@.skip(from as int)) == (j - from) + key_len(chars@.skip(j as int)),
        decreases chars.len() - j,
    {
        assert(chars@.skip(j as int).skip(1) =~= chars@.skip(j + 1));
        j += 1;
    }
    j
}

/// Tests whether `message` opens with the stop marker.
pub fn has_stop_marker(message: &str) -> (r: bool)
    ensures
        r == stop_marker().is_prefix_of(message@),
{
    let chars = chars_of(message);
    let marker = chars_of("*stopped,");
    proof {
        reveal_strlit("*stopped,");
        assert(marker@ =~= stop_marker());
    }
    matches_at(&chars, 0, &marker)
}

/// Rewrites a stop record into JSON text: drops the marker, quotes every bare
/// key, turns the `=` after it into `:`, and wraps the result in braces.
pub fn transform_to_json(input: &str) -> (out: String)
    requires
        stop_marker().is_prefix_of(input@),
    ensures
        out@ == normalized(input@),
{
    let chars = chars_of(input);
    let n = chars.len();
    let mut out = String::new();
    out.append("{");
    let mut copied: usize = MARKER_LEN;
    let mut i: usize = MARKER_LEN;
    proof {
        reveal_strlit("{");
        reveal_strlit("}");
        reveal_strlit("\"");
        reveal_strlit("\":");
        assert(out@ =~= seq!['{']);
        assert(out@ + chars@.subrange(MARKER_LEN as int, MARKER_LEN as int) =~= out@);
    }
    while i < n
        invariant
            MARKER_LEN <= copied <= i <= n,
            n == chars.len(),
            chars@ == input@,
            "\""@ == seq!['"'],
            "\":"@ == seq!['"', ':'],
            out@ + chars@.subrange(copied as int, i as int) + quote_keys(chars@.skip(i as int))
                == seq!['{'] + quote_keys(chars@.skip(MARKER_LEN as int)),
        decreases n - i,
    {
        let end = key_end(&chars, i);
        let ghost rest = chars@.skip(i as int);
        let ghost before = out@;
        if i < end && end < n && chars[end] == '=' {
            out.append(input.substring_char(copied, i));
            out.append("\"");
            out.append(input.substring_char(i, end));
            out.append("\":");
            proof {
                assert(rest.take(end - i) =~= chars@.subrange(i as int, end as int));
                assert(rest.skip(end - i + 1) =~= chars@.skip(end + 1));
                assert(out@ + chars@.subrange(end + 1, end + 1) + quote_keys(
                    chars@.skip(end + 1),
                ) =~= before + chars@.subrange(copied as int, i as int) + quote_keys(rest));
            }
            i = end + 1;
            copied = i;
        } else {
            proof {
                assert(rest.skip(1) =~= chars@.skip(i + 1));
                assert(chars@.subrange(copied as int, i + 1) =~= chars@.subrange(
                    copied as int,
                    i as int,
                ) + seq![rest[0]]);
                assert(out@ + chars@.subrange(copied as int, i + 1) + quote_keys(
                    chars@.skip(i + 1),
                ) =~= out@ + chars@.subrange(copied as int, i as int) + quote_keys(rest));
            }
            i += 1;
        }
    }
    out.append(input.substring_char(copied, n));
    out.append("}");
    proof {
        reveal_strlit("}");
        assert(quote_keys(chars@.skip(n as int)) =~= Seq::<char>::empty());
        assert(out@ =~= seq!['{'] + quote_keys(chars@.skip(MARKER_LEN as int)) + seq!['}']);
    }
    out
}

/// A member of a stop record that the decoder reads.
#[derive(Debug, Clone, Copy, PartialEq, Eq, Structural)]
pub enum Field {
    Reason,
    Core,
    ThreadId,
    SignalName,
    ExitCode,
}

/// Why a stop record could not be turned into a stop reason.
#[derive(Debug)]
pub enum ParseError {
    /// The line does not open with the stop marker.
    NotAStopRecord,
    /// The record, with its keys quoted, is not a JSON object.
    Syntax(serde_json::Error),
    /// The record lacks a member that its reason calls for.
    Missing(Field),
    /// A member does not hold what its name calls for.
    Malformed(Field),
    /// The reason is none of the three that the decoder knows.
    UnknownReason,
}

/// The target stopped on a signal.
#[derive(Debug, PartialEq, Eq)]
pub struct SignalReceived {
    pub core: usize,
    pub thread_id: usize,
    pub signal_name: String,
}

/// The target exited with a code other than zero.
#[derive(Debug, PartialEq, Eq)]
pub struct ExitedWithCode {
    pub exit_code: usize,
}

/// Why the target stopped.
#[derive(Debug, PartialEq, Eq)]
pub enum StopReason {
    ExitedNormally,
    SignalReceived(SignalReceived),
    Exited(ExitedWithCode),
}

/// A stop reason as a mathematical value.
pub enum Stop {
    ExitedNormally,
    SignalReceived { core: nat, thread_id: nat, signal_name: Seq<char> },
    Exited { exit_code: nat },
}

impl View for StopReason {
    type V = Stop;

    open spec fn view(&self) -> Stop {
        match *self {
            StopReason::ExitedNormally => Stop::ExitedNormally,
            StopReason::SignalReceived(s) => Stop::SignalReceived {
                core: s.core as nat,
                thread_id: s.thread_id as nat,
                signal_name: s.signal_name@,
            },
            StopReason::Exited(e) => Stop::Exited { exit_code: e.exit_code as nat },
        }
    }
}

/// The key under which a stop record holds `field`.
pub open spec fn field_name(field: Field) -> Seq<char> {
    match field {
        Field::Reason => "reason"@,
        Field::Core => "core"@,
        Field::ThreadId => "thread-id"@,
        Field::SignalName => "signal-name"@,
        Field::ExitCode => "exit-code"@,
    }
}

/// The spelling of each stop reason in the `reason` member.
pub open spec fn reason_tag(stop: Stop) -> Seq<char> {
    match stop {
        Stop::ExitedNormally => "exited-normally"@,
        Stop::SignalReceived { .. } => "signal-received"@,
        Stop::Exited { .. } => "exited"@,
    }
}

/// The string that `members` hold under `field`.
pub open spec fn text_of(members: Seq<JsonMember>, field: Field) -> Result<Seq<char>, ParseError> {
    match member(members, field_name(field)) {
        None => Err(ParseError::Missing(field)),
        Some(JsonValue::Text(s)) => Ok(s@),
        Some(_) => Err(ParseError::Malformed(field)),
    }
}

/// The number that `members` hold under `field`, a string being read in base `radix`.
pub open spec fn number_of(members: Seq<JsonMember>, field: Field, radix: nat) -> Result<
    nat,
    ParseError,
> {
    match member(members, field_name(field)) {
        None => Err(ParseError::Missing(field)),
        Some(value) => match unsigned_of(value, radix) {
            Some(n) => Ok(n as nat),
            None => Err(ParseError::Malformed(field)),
        },
    }
}

/// The stop reason that the members of a stop record stand for.
///
/// The `reason` member selects the variant. A signal carries `core` and
/// `thread-id`, decimal, and `signal-name`; an exit with a code carries
/// `exit-code`, octal. Members that the variant does not call for are ignored.
/// The first member that is missing or malformed, in that order, is the error.
pub open spec fn decoded(members: Seq<JsonMember>) -> Result<Stop, ParseError> {
    match text_of(members, Field::Reason) {
        Err(e) => Err(e),
        Ok(tag) => if tag == "exited-normally"@ {
            Ok(Stop::ExitedNormally)
        } else if tag == "signal-received"@ {
            match number_of(members, Field::Core, 10) {
                Err(e) => Err(e),
                Ok(core) => match number_of(members, Field::ThreadId, 10) {
                    Err(e) => Err(e),
                    Ok(thread_id) => match text_of(members, Field::SignalName) {
                        Err(e) => Err(e),
                        Ok(signal_name) => Ok(
                            Stop::SignalReceived { core, thread_id, signal_name },
                        ),
                    },
                },
            }
        } else if tag == "exited"@ {
            match number_of(members, Field::ExitCode, 8) {
                Err(e) => Err(e),
                Ok(exit_code) => Ok(Stop::Exited { exit_code }),
            }
        } else {
            Err(ParseError::UnknownReason)
        },
    }
}

/// Whether `tag` is one of the three spellings of a stop reason.
pub open spec fn is_reason_tag(tag: Seq<char>) -> bool {
    tag == "exited-normally"@ || tag == "signal-received"@ || tag == "exited"@
}

/// A record is never decoded as another variant than its `reason` names: where
/// decoding gives a stop reason, the `reason` member is a string and spells that
/// variant; and where the `reason` member is a string that spells none of the
/// three variants, decoding fails with `UnknownReason`.
pub proof fn lemma_decoded_variant_is_tagged(members: Seq<JsonMember>)
    ensures
        decoded(members) matches Ok(stop) ==> text_of(members, Field::Reason) == Ok::<
            Seq<char>,
            ParseError,
        >(reason_tag(stop)),
        text_of(members, Field::Reason) matches Ok(tag) && !is_reason_tag(tag) ==> decoded(members)
            == Err::<Stop, ParseError>(ParseError::UnknownReason),
{
    reveal_strlit("exited-normally");
    reveal_strlit("signal-received");
    reveal_strlit("exited");
    assert("exited-normally"@.len() != "exited"@.len());
    assert("signal-received"@[0] != "exited"@[0]);
    assert("signal-received"@[0] != "exited-normally"@[0]);
}

/// The key under which a stop record holds `field`.
fn key_of(field: Field) -> (key: &'static str)
    ensures
        key@ == field_name(field),
{
    match field {
        Field::Reason => "reason",
        Field::Core => "core",
        Field::ThreadId => "thread-id",
        Field::SignalName => "signal-name",
        Field::ExitCode => "exit-code",
    }
}

/// Reads the string that `members` hold under `field`.
fn text_field(members: &Vec<JsonMember>, field: Field) -> (r: Result<String, ParseError>)
    ensures
        match r {
            Ok(s) => text_of(members@, field) == Ok::<Seq<char>, ParseError>(s@),
            Err(e) => text_of(members@, field) == Err::<Seq<char>, ParseError>(e),
        },
{
    match find_member(members, key_of(field)) {
        None => Err(ParseError::Missing(field)),
        Some(JsonValue::Text(s)) => Ok(s.clone()),
        Some(_) => Err(ParseError::Malformed(field)),
    }
}

/// Reads the number that `members` hold under `field`, a string as decimal or,
/// if `octal` is set, as octal.
fn number_field(members: &Vec<JsonMember>, field: Field, octal: bool) -> (r: Result<
    usize,
    ParseError,
>)
    ensures
        match r {
            Ok(n) => number_of(members@, field, if octal { 8nat } else { 10nat }) == Ok::<
                nat,
                ParseError,
            >(n as nat),
            Err(e) => number_of(members@, field, if octal { 8nat } else { 10nat }) == Err::<
                nat,
                ParseError,
            >(e),
        },
{
    match find_member(members, key_of(field)) {
        None => Err(ParseError::Missing(field)),
        Some(value) => {
            let number = if octal {
                deserialize_number_from_octal_str(value)
            } else {
                deserialize_number_from_string(value)
            };
            match number {
                Ok(n) => Ok(n),
                Err(_) => Err(ParseError::Malformed(field)),
            }
        },
    }
}

/// Tests whether `text` is spelled as `spelling`.
fn is_spelled(text: &String, spelling: &str) -> (r: bool)
    ensures
        r == (text@ == spelling@),
{
    *text == spelling.to_owned()
}

/// Picks the stop reason out of the members of a stop record.
pub fn decode_stop_reason(members: &Vec<JsonMember>) -> (r: Result<StopReason, ParseError>)
    ensures
        match r {
            Ok(reason) => decoded(members@) == Ok::<Stop, ParseError>(reason@),
            Err(e) => decoded(members@) == Err::<Stop, ParseError>(e),
        },
{
    let tag = match text_field(members, Field::Reason) {
        Ok(tag) => tag,
        Err(e) => {
            return Err(e);
        },
    };
    if is_spelled(&tag, "exited-normally") {
        Ok(StopReason::ExitedNormally)
    } else if is_spelled(&tag, "signal-received") {
        let core = match number_field(members, Field::Core, false) {
            Ok(n) => n,
            Err(e) => {
                return Err(e);
            },
        };
        let thread_id = match number_field(members, Field::ThreadId, false) {
            Ok(n) => n,
            Err(e) => {
                return Err(e);
            },
        };
        let signal_name = match text_field(members, Field::SignalName) {
            Ok(s) => s,
            Err(e) => {
                return Err(e);
            },
        };
        Ok(StopReason::SignalReceived(SignalReceived { core, thread_id, signal_name }))
    } else if is_spelled(&tag, "exited") {
        match number_field(members, Field::ExitCode, true) {
            Ok(exit_code) => Ok(StopReason::Exited(ExitedWithCode { exit_code })),
            Err(e) => Err(e),
        }
    } else {
        Err(ParseError::UnknownReason)
    }
}

/// Reads a stop record as a JSON object and hands out its members.
///
/// Fails with `Syntax` exactly where the record, with its keys quoted, is no
/// JSON object.
pub fn jsonize_stop_message(message: &str) -> (r: Result<Vec<JsonMember>, ParseError>)
    requires
        stop_marker().is_prefix_of(message@),
    ensures
        match json_members(normalized(message@)) {
            Some(members) => r matches Ok(found) && found@ == members,
            None => r matches Err(ParseError::Syntax(_)),
        },
{
    let enclosed = transform_to_json(message);
    match parse_object(enclosed.as_str()) {
        Ok(members) => Ok(members),
        Err(e) => Err(ParseError::Syntax(e)),
    }
}

/// Reads the stop reason from a stop record.
///
/// Fails with `Syntax` exactly where the record, with its keys quoted, is no
/// JSON object, and otherwise exactly where `decoded` finds no stop reason in its
/// members, with the error that `decoded` gives.
pub fn parse_stop_message(message: &str) -> (r: Result<StopReason, ParseError>)
    requires
        stop_marker().is_prefix_of(message@),
    ensures
        match json_members(normalized(message@)) {
            Some(members) => match r {
                Ok(reason) => decoded(members) == Ok::<Stop, ParseError>(reason@),
                Err(e) => decoded(members) == Err::<Stop, ParseError>(e),
            },
            None => r matches Err(ParseError::Syntax(_)),
        },
{
    match jsonize_stop_message(message) {
        Ok(members) => decode_stop_reason(&members),
        Err(e) => Err(e),
    }
}

/// What reading a line as a stop record gives: `NotAStopRecord` unless the line
/// opens with the stop marker, `Syntax` if the record is no JSON object, and
/// else what `decoded` finds in its members.
pub open spec fn stop_of_line_is(line: Seq<char>, r: Result<StopReason, ParseError>) -> bool {
    if !stop_marker().is_prefix_of(line) {
        r matches Err(ParseError::NotAStopRecord)
    } else {
        match json_members(normalized(line)) {
            Some(members) => match r {
                Ok(reason) => decoded(members) == Ok::<Stop, ParseError>(reason@),
                Err(e) => decoded(members) == Err::<Stop, ParseError>(e),
            },
            None => r matches Err(ParseError::Syntax(_)),
        }
    }
}

/// Reads the stop reason from a line that may or may not be a stop record.
pub fn parse_stop_line(line: &str) -> (r: Result<StopReason, ParseError>)
    ensures
        stop_of_line_is(line@, r),
{
    if has_stop_marker(line) {
        parse_stop_message(line)
    } else {
        Err(ParseError::NotAStopRecord)
    }
}

} // verus!
