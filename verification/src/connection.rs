//! The client side of the D-Bus authentication handshake, with the
//! `EXTERNAL` mechanism, and the connection it opens.
//!
//! The handshake is a conversation of lines. [`Authenticator`] decides, for
//! each line the server sends, what to answer and what state follows; the
//! caller reads and writes the lines.
use vstd::prelude::*;
use vstd::string::StringSliceAdditionalSpecFns;
use vstd::utf8::{decode_utf8, encode_utf8};

use crate::message::put_bytes;
use crate::object_path::bytes_equal;
use crate::utils::{decimal, hex_of, HexU32};

verus! {

/// Where the client stands in the handshake.
#[derive(Debug, Clone, Copy, PartialEq, Eq, Structural)]
pub enum State {
    /// Waiting for a challenge of the mechanism.
    WaitingForData,
    /// Waiting for the server to accept the mechanism.
    WaitingForOK,
    /// Waiting for the server to reject the cancelled mechanism.
    WaitingForReject,
    /// Waiting for the answer to the request to pass file descriptors.
    WaitingForAgreeUnixFD,
}

impl State {
    /// The name of the state.
    pub fn name(&self) -> (r: &'static str)
        ensures
            r@ == match self {
                State::WaitingForData => "WaitingForData"@,
                State::WaitingForOK => "WaitingForOK"@,
                State::WaitingForReject => "WaitingForReject"@,
                State::WaitingForAgreeUnixFD => "WaitingForAgreeUnixFD"@,
            },
    {
        match self {
            State::WaitingForData => "WaitingForData",
            State::WaitingForOK => "WaitingForOK",
            State::WaitingForReject => "WaitingForReject",
            State::WaitingForAgreeUnixFD => "WaitingForAgreeUnixFD",
        }
    }
}

/// Unicode white space, as `char::is_whitespace` counts it.
pub open spec fn is_whitespace(c: char) -> bool {
    let u = c as u32;
    (0x9 <= u <= 0xd) || u == 0x20 || u == 0x85 || u == 0xa0 || u == 0x1680 || (0x2000 <= u <= 0x200a)
        || u == 0x2028 || u == 0x2029 || u == 0x202f || u == 0x205f || u == 0x3000
}

/// `s` without its trailing white space.
pub open spec fn trim_end_spec(s: Seq<char>) -> Seq<char>
    decreases s.len(),
{
    if s.len() > 0 && is_whitespace(s.last()) {
        trim_end_spec(s.drop_last())
    } else {
        s
    }
}

/// `str::trim_end`: the claim is that it drops exactly the trailing
/// characters that are Unicode white space.
#[verifier::external_body]
fn trim_end(s: &str) -> (r: &str)
    ensures
        r@ == trim_end_spec(s@),
{
    s.trim_end()
}

/// Index of the first space byte, or the length where there is none.
pub open spec fn space_index(b: Seq<u8>) -> int
    decreases b.len(),
{
    if b.len() == 0 || b[0] == 0x20 {
        0
    } else {
        1 + space_index(b.drop_first())
    }
}

/// The command of a line: up to its first space.
pub open spec fn command_of(line: Seq<char>) -> Seq<u8> {
    let b = encode_utf8(trim_end_spec(line));
    b.take(space_index(b))
}

/// The argument of a line: after its first space, or nothing.
pub open spec fn argument_of(line: Seq<char>) -> Seq<u8> {
    let b = encode_utf8(trim_end_spec(line));
    let i = space_index(b);
    if i < b.len() {
        b.skip(i + 1)
    } else {
        Seq::empty()
    }
}

proof fn lemma_space_index(b: Seq<u8>, i: int)
    requires
        0 <= i <= b.len(),
        forall|j: int| 0 <= j < i ==> b[j] != 0x20,
        i == b.len() || b[i] == 0x20,
    ensures
        space_index(b) == i,
    decreases i,
{
    if i > 0 {
        let t = b.drop_first();
        assert forall|j: int| 0 <= j < i - 1 implies t[j] != 0x20 by {
            assert(t[j] == b[j + 1]);
        }
        if i < b.len() {
            assert(t[i - 1] == b[i]);
        }
        lemma_space_index(t, i - 1);
    }
}

/// A line splits at its first space, after trailing white space is taken
/// off: the command holds no space; where there is a space, the command, that
/// space and the argument make up the whole trimmed line; where there is none,
/// the command is the whole trimmed line and the argument is empty.
pub proof fn law_line_splits_at_first_space(line: Seq<char>)
    ensures
        ({
            let b = encode_utf8(trim_end_spec(line));
            let c = command_of(line);
            let a = argument_of(line);
            &&& forall|i: int| 0 <= i < c.len() ==> #[trigger] c[i] != 0x20
            &&& c.len() < b.len() ==> b == c + seq![0x20u8] + a
            &&& c.len() >= b.len() ==> c == b && a.len() == 0
        }),
{
    let b = encode_utf8(trim_end_spec(line));
    lemma_space_index_facts(b);
    let i = space_index(b);
    let c = command_of(line);
    assert forall|j: int| 0 <= j < c.len() implies #[trigger] c[j] != 0x20 by {
        assert(c[j] == b[j]);
    }
    if i < b.len() {
        assert(b =~= c + seq![0x20u8] + argument_of(line));
    } else {
        assert(c =~= b);
    }
}

/// The first space is at `space_index`, and no space comes before it.
proof fn lemma_space_index_facts(b: Seq<u8>)
    ensures
        0 <= space_index(b) <= b.len(),
        space_index(b) < b.len() ==> b[space_index(b)] == 0x20,
        forall|j: int| 0 <= j < space_index(b) ==> b[j] != 0x20,
    decreases b.len(),
{
    if b.len() > 0 && b[0] != 0x20 {
        let t = b.drop_first();
        lemma_space_index_facts(t);
        assert forall|j: int| 0 <= j < space_index(b) implies b[j] != 0x20 by {
            if j > 0 {
                assert(b[j] == t[j - 1]);
            }
        }
    }
}

/// The GUID is the text after `OK ` on the line with which the server accepts
/// the mechanism, while the client waits for data or for `OK`; any other line,
/// and any line in the two later states, leaves the GUID as it was.
pub proof fn law_guid_from_ok_line(s: State, guid: Seq<char>, line: Seq<char>)
    ensures
        (s == State::WaitingForData || s == State::WaitingForOK) && command_of(line) == "OK".spec_bytes()
            ==> guid_after(s, guid, line) == decode_utf8(argument_of(line)),
        !((s == State::WaitingForData || s == State::WaitingForOK) && command_of(line) == "OK".spec_bytes())
            ==> guid_after(s, guid, line) == guid,
{
    lemma_command_lengths();
}

/// Splits a line into its command and argument: trailing white space off,
/// then at the first space.
pub fn split_line(line: &str) -> (r: (&str, &str))
    ensures
        r.0.spec_bytes() == command_of(line@),
        r.1.spec_bytes() == argument_of(line@),
{
    let t = trim_end(line);
    let b = t.as_bytes();
    let n = b.len();
    let mut i: usize = 0;
    while i < n && b[i] != 0x20
        invariant
            n == b@.len(),
            0 <= i <= n,
            forall|j: int| 0 <= j < i ==> b@[j] != 0x20,
        decreases n - i,
    {
        i = i + 1;
    }
    proof {
        lemma_space_index(b@, i as int);
        vstd::utf8::encode_utf8_valid_utf8(t@);
        vstd::utf8::is_char_boundary_start_end_of_seq(b@);
    }
    if i == n {
        let (cmd, rest) = t.split_at(n);
        assert(cmd.spec_bytes() =~= b@.take(n as int));
        assert(rest.spec_bytes() =~= Seq::<u8>::empty());
        (cmd, rest)
    } else {
        proof {
            vstd::utf8::is_char_boundary_iff_not_is_continuation_byte(b@, i as int);
        }
        let (cmd, rest) = t.split_at(i);
        proof {
            let rb = rest.spec_bytes();
            assert(rb =~= b@.subrange(i as int, n as int));
            vstd::utf8::valid_utf8_split(b@, i as int);
            assert(rb[0] == 0x20);
            reveal_with_fuel(vstd::utf8::is_char_boundary, 2);
            assert(vstd::utf8::is_char_boundary(rb, 1));
        }
        let (_, arg) = rest.split_at(1);
        assert(arg.spec_bytes() =~= b@.skip(i + 1));
        (cmd, arg)
    }
}

/// What to do after a line of the server.
#[derive(Debug)]
pub enum AuthAction {
    /// Send this line, then wait for the next one.
    Send(&'static str),
    /// Send `BEGIN`; the connection is open.
    Begin { unix_fd_passing: bool },
    /// The server rejected the mechanism; it lists those it supports.
    Rejected { available: String },
    /// The line is not one that the state allows.
    Invalid,
}

/// An [`AuthAction`], as values.
pub enum AuthActionV {
    Send(Seq<char>),
    Begin(bool),
    Rejected(Seq<u8>),
    Invalid,
}

impl View for AuthAction {
    type V = AuthActionV;

    open spec fn view(&self) -> AuthActionV {
        match self {
            AuthAction::Send(s) => AuthActionV::Send(s@),
            AuthAction::Begin { unix_fd_passing } => AuthActionV::Begin(*unix_fd_passing),
            AuthAction::Rejected { available } => AuthActionV::Rejected(encode_utf8(available@)),
            AuthAction::Invalid => AuthActionV::Invalid,
        }
    }
}

/// `cmd` is the command `lit`.
pub open spec fn is_cmd(cmd: Seq<u8>, lit: &str) -> bool {
    cmd == lit.spec_bytes()
}

/// The answer to a line with command `cmd` and argument `arg` in state `s`,
/// and the state that follows.
pub open spec fn spec_step(s: State, cmd: Seq<u8>, arg: Seq<u8>) -> (AuthActionV, State) {
    let early = s == State::WaitingForData || s == State::WaitingForOK;
    if is_cmd(cmd, "REJECTED") && s != State::WaitingForAgreeUnixFD {
        (AuthActionV::Rejected(arg), s)
    } else if (early && is_cmd(cmd, "ERROR")) || (s == State::WaitingForOK && is_cmd(cmd, "DATA")) {
        (AuthActionV::Send("CANCEL\r\n"@), State::WaitingForReject)
    } else if early && is_cmd(cmd, "OK") {
        (AuthActionV::Send("NEGOTIATE_UNIX_FD\r\n"@), State::WaitingForAgreeUnixFD)
    } else if s == State::WaitingForData && is_cmd(cmd, "DATA") {
        (AuthActionV::Send("ERROR no mechanism to process challenge\r\n"@), s)
    } else if s == State::WaitingForAgreeUnixFD && is_cmd(cmd, "AGREE_UNIX_FD") {
        (AuthActionV::Begin(true), s)
    } else if s == State::WaitingForAgreeUnixFD && is_cmd(cmd, "ERROR") {
        (AuthActionV::Begin(false), s)
    } else if early {
        (AuthActionV::Send("ERROR\r\n"@), s)
    } else {
        (AuthActionV::Invalid, s)
    }
}

/// The commands of the handshake have different lengths, so no two are equal.
proof fn lemma_command_lengths()
    ensures
        "OK".spec_bytes().len() == 2,
        "DATA".spec_bytes().len() == 4,
        "ERROR".spec_bytes().len() == 5,
        "REJECTED".spec_bytes().len() == 8,
        "AGREE_UNIX_FD".spec_bytes().len() == 13,
{
    reveal_strlit("OK");
    reveal_strlit("DATA");
    reveal_strlit("ERROR");
    reveal_strlit("REJECTED");
    reveal_strlit("AGREE_UNIX_FD");
    assert(vstd::utf8::is_ascii_chars("OK"@));
    assert(vstd::utf8::is_ascii_chars("DATA"@));
    assert(vstd::utf8::is_ascii_chars("ERROR"@));
    assert(vstd::utf8::is_ascii_chars("REJECTED"@));
    assert(vstd::utf8::is_ascii_chars("AGREE_UNIX_FD"@));
    vstd::utf8::is_ascii_chars_encode_utf8("OK"@);
    vstd::utf8::is_ascii_chars_encode_utf8("DATA"@);
    vstd::utf8::is_ascii_chars_encode_utf8("ERROR"@);
    vstd::utf8::is_ascii_chars_encode_utf8("REJECTED"@);
    vstd::utf8::is_ascii_chars_encode_utf8("AGREE_UNIX_FD"@);
}

/// How the client answers each line of the server, by state and command:
/// - `REJECTED` ends the handshake with the server's list of mechanisms, in
///   every state but the one that waits for the answer on file descriptors;
/// - `ERROR` while waiting for data or for `OK`, and `DATA` while waiting for
///   `OK`, are answered `CANCEL`, and the client waits for the rejection;
/// - `OK` while waiting for data or for `OK` is answered `NEGOTIATE_UNIX_FD`;
/// - `DATA` while waiting for data is answered with an error, as no mechanism
///   here takes a challenge;
/// - `AGREE_UNIX_FD` opens the connection with file descriptor passing, and
///   `ERROR` without, while waiting for that answer;
/// - any other command is answered `ERROR` while waiting for data or for
///   `OK`, and is invalid in the two other states.
pub proof fn law_step_answers(s: State, cmd: Seq<u8>, arg: Seq<u8>)
    ensures
        s != State::WaitingForAgreeUnixFD && cmd == "REJECTED".spec_bytes()
            ==> spec_step(s, cmd, arg).0 == AuthActionV::Rejected(arg),
        ((s == State::WaitingForData || s == State::WaitingForOK) && cmd == "ERROR".spec_bytes())
            || (s == State::WaitingForOK && cmd == "DATA".spec_bytes())
            ==> spec_step(s, cmd, arg) == (AuthActionV::Send("CANCEL\r\n"@), State::WaitingForReject),
        (s == State::WaitingForData || s == State::WaitingForOK) && cmd == "OK".spec_bytes()
            ==> spec_step(s, cmd, arg) == (AuthActionV::Send("NEGOTIATE_UNIX_FD\r\n"@), State::WaitingForAgreeUnixFD),
        s == State::WaitingForData && cmd == "DATA".spec_bytes() ==> spec_step(s, cmd, arg) == (
            AuthActionV::Send("ERROR no mechanism to process challenge\r\n"@),
            State::WaitingForData,
        ),
        s == State::WaitingForAgreeUnixFD && cmd == "AGREE_UNIX_FD".spec_bytes()
            ==> spec_step(s, cmd, arg).0 == AuthActionV::Begin(true),
        s == State::WaitingForAgreeUnixFD && cmd == "ERROR".spec_bytes()
            ==> spec_step(s, cmd, arg).0 == AuthActionV::Begin(false),
        (s == State::WaitingForData || s == State::WaitingForOK) && cmd != "REJECTED".spec_bytes()
            && cmd != "ERROR".spec_bytes() && cmd != "DATA".spec_bytes() && cmd != "OK".spec_bytes()
            ==> spec_step(s, cmd, arg) == (AuthActionV::Send("ERROR\r\n"@), s),
        s == State::WaitingForReject && cmd != "REJECTED".spec_bytes() ==> spec_step(s, cmd, arg).0 is Invalid,
        s == State::WaitingForAgreeUnixFD && cmd != "AGREE_UNIX_FD".spec_bytes() && cmd != "ERROR".spec_bytes()
            ==> spec_step(s, cmd, arg).0 is Invalid,
{
    lemma_command_lengths();
}

/// The server accepts the mechanism on this line, which gives its GUID.
pub open spec fn accepts(s: State, cmd: Seq<u8>) -> bool {
    (s == State::WaitingForData || s == State::WaitingForOK) && !is_cmd(cmd, "REJECTED") && !is_cmd(cmd, "ERROR")
        && !(s == State::WaitingForOK && is_cmd(cmd, "DATA")) && is_cmd(cmd, "OK")
}

/// The connection opens (`BEGIN`) only from the state that waits for the
/// answer on file descriptor passing, and that state is entered only when the
/// server accepts the mechanism with `OK`.
pub proof fn lemma_begin_only_after_ok(s: State, cmd: Seq<u8>, arg: Seq<u8>)
    ensures
        spec_step(s, cmd, arg).0 is Begin ==> s == State::WaitingForAgreeUnixFD,
        spec_step(s, cmd, arg).1 == State::WaitingForAgreeUnixFD ==> (s == State::WaitingForAgreeUnixFD
            || accepts(s, cmd)),
{
}

/// After a cancel, the only line that the client takes is `REJECTED`; any
/// other is invalid, and the state stays.
pub proof fn lemma_waiting_for_reject(cmd: Seq<u8>, arg: Seq<u8>)
    ensures
        spec_step(State::WaitingForReject, cmd, arg).1 == State::WaitingForReject,
        is_cmd(cmd, "REJECTED") ==> spec_step(State::WaitingForReject, cmd, arg).0 == AuthActionV::Rejected(arg),
        !is_cmd(cmd, "REJECTED") ==> spec_step(State::WaitingForReject, cmd, arg).0 is Invalid,
{
}

/// The handshake never goes back to waiting for `OK`; in the two states that
/// wait for the server to accept, every line gets an answer or a rejection,
/// never `Invalid`.
pub proof fn lemma_progress(s: State, cmd: Seq<u8>, arg: Seq<u8>)
    ensures
        spec_step(s, cmd, arg).1 == State::WaitingForOK ==> s == State::WaitingForOK,
        (s == State::WaitingForData || s == State::WaitingForOK) ==> !(spec_step(s, cmd, arg).0 is Invalid),
{
}

/// The GUID known after `line` arrives in state `s`: the argument of an
/// accepting `OK`, else the one known before.
pub open spec fn guid_after(s: State, guid: Seq<char>, line: Seq<char>) -> Seq<char> {
    if accepts(s, command_of(line)) {
        decode_utf8(argument_of(line))
    } else {
        guid
    }
}

/// How a handshake stands after the lines the server sent.
pub enum HandshakeEnd {
    /// More lines are awaited, in this state, with this GUID so far.
    Waiting(State, Seq<char>),
    /// `BEGIN` was sent: the connection is open, with this GUID and this
    /// agreement on passing file descriptors.
    Open(Seq<char>, bool),
    /// The server rejected the mechanism, listing those it supports.
    Rejected(Seq<u8>),
    /// A line came that the state does not allow.
    Invalid,
}

/// The client's side of a handshake over the server's `lines`, from state `s`
/// with GUID `guid`: the lines it writes in answer, how it ends, and how many
/// of the lines it reads. `BEGIN` ends the handshake, and so do a rejection
/// and an invalid line, which get no answer.
pub open spec fn handshake(s: State, guid: Seq<char>, lines: Seq<Seq<char>>) -> (Seq<Seq<char>>, HandshakeEnd, nat)
    decreases lines.len(),
{
    if lines.len() == 0 {
        (Seq::empty(), HandshakeEnd::Waiting(s, guid), 0)
    } else {
        let line = lines[0];
        let step = spec_step(s, command_of(line), argument_of(line));
        match step.0 {
            AuthActionV::Send(t) => {
                let rest = handshake(step.1, guid_after(s, guid, line), lines.drop_first());
                (seq![t] + rest.0, rest.1, rest.2 + 1)
            },
            AuthActionV::Begin(fd) => (seq!["BEGIN\r\n"@], HandshakeEnd::Open(guid, fd), 1),
            AuthActionV::Rejected(arg) => (Seq::empty(), HandshakeEnd::Rejected(arg), 1),
            AuthActionV::Invalid => (Seq::empty(), HandshakeEnd::Invalid, 1),
        }
    }
}

/// No line that a step sends is `BEGIN`.
proof fn lemma_sent_not_begin(s: State, cmd: Seq<u8>, arg: Seq<u8>)
    ensures
        spec_step(s, cmd, arg).0 matches AuthActionV::Send(t) ==> t != "BEGIN\r\n"@,
{
    reveal_strlit("BEGIN\r\n");
    reveal_strlit("CANCEL\r\n");
    reveal_strlit("NEGOTIATE_UNIX_FD\r\n");
    reveal_strlit("ERROR no mechanism to process challenge\r\n");
    reveal_strlit("ERROR\r\n");
    assert("ERROR\r\n"@[0] != "BEGIN\r\n"@[0]);
}

/// The handshake reads at most the lines there are; where it has not ended
/// it has read them all, and where it has ended it has read at least one.
pub proof fn lemma_handshake_reads(s: State, guid: Seq<char>, lines: Seq<Seq<char>>)
    ensures
        handshake(s, guid, lines).2 <= lines.len(),
        handshake(s, guid, lines).1 is Waiting ==> handshake(s, guid, lines).2 == lines.len(),
        !(handshake(s, guid, lines).1 is Waiting) ==> handshake(s, guid, lines).2 >= 1,
    decreases lines.len(),
{
    if lines.len() > 0 {
        let line = lines[0];
        let step = spec_step(s, command_of(line), argument_of(line));
        lemma_handshake_reads(step.1, guid_after(s, guid, line), lines.drop_first());
    }
}

/// Once the handshake has ended, lines that come after are not read and
/// change nothing.
pub proof fn lemma_handshake_stops(s: State, guid: Seq<char>, lines: Seq<Seq<char>>, more: Seq<Seq<char>>)
    requires
        !(handshake(s, guid, lines).1 is Waiting),
    ensures
        handshake(s, guid, lines + more) == handshake(s, guid, lines),
    decreases lines.len(),
{
    let all = lines + more;
    assert(all[0] == lines[0]);
    let line = lines[0];
    let step = spec_step(s, command_of(line), argument_of(line));
    if step.0 is Send {
        assert(all.drop_first() =~= lines.drop_first() + more);
        lemma_handshake_stops(step.1, guid_after(s, guid, line), lines.drop_first(), more);
    }
}

/// Line by line: where the earlier lines leave the handshake waiting in state
/// `s2` with GUID `g2`, one more line is answered as a step from there, and
/// what it writes follows what was written before.
pub proof fn lemma_handshake_push(s: State, guid: Seq<char>, lines: Seq<Seq<char>>, line: Seq<char>)
    ensures
        handshake(s, guid, lines).1 matches HandshakeEnd::Waiting(s2, g2) ==> {
            let h = handshake(s, guid, lines);
            let n = handshake(s2, g2, seq![line]);
            handshake(s, guid, lines.push(line)) == (h.0 + n.0, n.1, h.2 + n.2)
        },
    decreases lines.len(),
{
    let all = lines.push(line);
    if lines.len() == 0 {
        assert(all =~= seq![line]);
        assert(handshake(s, guid, all).0 =~= Seq::<Seq<char>>::empty() + handshake(s, guid, all).0);
    } else {
        assert(all[0] == lines[0]);
        let first = lines[0];
        let step = spec_step(s, command_of(first), argument_of(first));
        if step.0 is Send {
            assert(all.drop_first() =~= lines.drop_first().push(line));
            lemma_handshake_push(step.1, guid_after(s, guid, first), lines.drop_first(), line);
            let h = handshake(s, guid, lines);
            if let HandshakeEnd::Waiting(s2, g2) = h.1 {
                let n = handshake(s2, g2, seq![line]);
                let r = handshake(step.1, guid_after(s, guid, first), lines.drop_first());
                assert(handshake(s, guid, all).0 =~= h.0 + n.0) by {
                    assert(h.0 == seq![step.0->Send_0] + r.0);
                }
            }
        }
    }
}

/// `BEGIN` is written at most once, as the last line written, and it is
/// written exactly when the handshake opens the connection.
pub proof fn lemma_begin_once_last(s: State, guid: Seq<char>, lines: Seq<Seq<char>>)
    ensures
        forall|i: int|
            0 <= i < handshake(s, guid, lines).0.len() - 1 ==> #[trigger] handshake(s, guid, lines).0[i]
                != "BEGIN\r\n"@,
        handshake(s, guid, lines).1 is Open <==> (handshake(s, guid, lines).0.len() > 0
            && handshake(s, guid, lines).0.last() == "BEGIN\r\n"@),
    decreases lines.len(),
{
    if lines.len() > 0 {
        let line = lines[0];
        let step = spec_step(s, command_of(line), argument_of(line));
        lemma_sent_not_begin(s, command_of(line), argument_of(line));
        if let AuthActionV::Send(t) = step.0 {
            let rest = handshake(step.1, guid_after(s, guid, line), lines.drop_first());
            lemma_begin_once_last(step.1, guid_after(s, guid, line), lines.drop_first());
            let w = handshake(s, guid, lines).0;
            assert(w == seq![t] + rest.0);
            assert forall|i: int| 0 <= i < w.len() - 1 implies #[trigger] w[i] != "BEGIN\r\n"@ by {
                if i > 0 {
                    assert(w[i] == rest.0[i - 1]);
                }
            }
            if rest.0.len() > 0 {
                assert(w.last() == rest.0.last());
            }
        }
    }
}

/// From the state that waits for the answer on file descriptor passing, the
/// next line opens the connection, with the GUID known, when it is
/// `AGREE_UNIX_FD` (passing file descriptors) or `ERROR` (not passing them);
/// any other line is invalid.
proof fn lemma_handshake_from_agree(guid: Seq<char>, lines: Seq<Seq<char>>)
    requires
        lines.len() > 0,
    ensures
        handshake(State::WaitingForAgreeUnixFD, guid, lines).1 matches HandshakeEnd::Open(g, fd) ==> {
            &&& g == guid
            &&& handshake(State::WaitingForAgreeUnixFD, guid, lines).2 == 1
            &&& handshake(State::WaitingForAgreeUnixFD, guid, lines).0 == seq!["BEGIN\r\n"@]
            &&& fd == is_cmd(command_of(lines[0]), "AGREE_UNIX_FD")
            &&& !fd ==> is_cmd(command_of(lines[0]), "ERROR")
        },
{
}

/// A handshake that opens the connection read an `OK` line, whose argument is
/// the GUID, answered it with `NEGOTIATE_UNIX_FD`, then read the answer to
/// that as its last line: file descriptors are passed exactly when that
/// answer was `AGREE_UNIX_FD`, and otherwise it was `ERROR`.
pub proof fn lemma_open_after_ok(s: State, guid: Seq<char>, lines: Seq<Seq<char>>)
    requires
        s != State::WaitingForAgreeUnixFD,
    ensures
        handshake(s, guid, lines).1 matches HandshakeEnd::Open(g, fd) ==> {
            let w = handshake(s, guid, lines).0;
            let k = handshake(s, guid, lines).2;
            &&& 2 <= k <= lines.len()
            &&& is_cmd(command_of(lines[k - 2]), "OK")
            &&& g == decode_utf8(argument_of(lines[k - 2]))
            &&& w.len() >= 2
            &&& w[w.len() - 2] == "NEGOTIATE_UNIX_FD\r\n"@
            &&& fd == is_cmd(command_of(lines[k - 1]), "AGREE_UNIX_FD")
            &&& !fd ==> is_cmd(command_of(lines[k - 1]), "ERROR")
        },
    decreases lines.len(),
{
    lemma_handshake_reads(s, guid, lines);
    if lines.len() > 0 {
        let line = lines[0];
        let rest = lines.drop_first();
        let step = spec_step(s, command_of(line), argument_of(line));
        lemma_begin_only_after_ok(s, command_of(line), argument_of(line));
        if let AuthActionV::Send(t) = step.0 {
            let g2 = guid_after(s, guid, line);
            let r = handshake(step.1, g2, rest);
            lemma_handshake_reads(step.1, g2, rest);
            if step.1 == State::WaitingForAgreeUnixFD {
                if rest.len() > 0 {
                    lemma_handshake_from_agree(g2, rest);
                    assert(rest[0] == lines[1]);
                }
            } else {
                lemma_open_after_ok(step.1, g2, rest);
                if r.1 is Open {
                    let k2 = r.2;
                    assert(rest[k2 - 2] == lines[k2 - 1]);
                    assert(rest[k2 - 1] == lines[k2 as int]);
                    let w = handshake(s, guid, lines).0;
                    assert(w == seq![t] + r.0);
                    assert(w[w.len() - 2] == r.0[r.0.len() - 2]);
                }
            }
        }
    }
}

/// The client's side of the handshake: its state, and the GUID the server gave.
pub struct Authenticator {
    state: State,
    server_guid: String,
}

impl Authenticator {
    pub closed spec fn state(&self) -> State {
        self.state
    }

    pub closed spec fn guid(&self) -> Seq<char> {
        self.server_guid@
    }

    /// The handshake after the client has sent its `AUTH EXTERNAL` line.
    pub fn new() -> (r: Self)
        ensures
            r.state() == State::WaitingForOK,
            r.guid() == Seq::<char>::empty(),
    {
        Authenticator { state: State::WaitingForOK, server_guid: String::new() }
    }

    pub fn state_now(&self) -> (r: State)
        ensures
            r == self.state(),
    {
        self.state
    }

    /// The GUID the server gave with its `OK`; empty before that.
    pub fn server_guid(&self) -> (r: &str)
        ensures
            r@ == self.guid(),
    {
        self.server_guid.as_str()
    }

    /// The GUID the server gave, for the open connection.
    pub fn into_server_guid(self) -> (r: String)
        ensures
            r@ == self.guid(),
    {
        self.server_guid
    }

    /// Decides the answer to a line of the server (without its line end).
    pub fn step(&mut self, line: &str) -> (r: AuthAction)
        ensures
            (r@, final(self).state()) == spec_step(old(self).state(), command_of(line@), argument_of(line@)),
            final(self).guid() == guid_after(old(self).state(), old(self).guid(), line@),
    {
        let (cmd, arg) = split_line(line);
        proof {
            vstd::utf8::encode_utf8_decode_utf8(arg@);
            vstd::utf8::encode_utf8_decode_utf8(cmd@);
        }
        let c = cmd.as_bytes();
        let s = self.state;
        let early = s == State::WaitingForData || s == State::WaitingForOK;
        if bytes_equal(c, "REJECTED".as_bytes()) && s != State::WaitingForAgreeUnixFD {
            return AuthAction::Rejected { available: arg.to_owned() };
        }
        if (early && bytes_equal(c, "ERROR".as_bytes())) || (s == State::WaitingForOK && bytes_equal(c, "DATA".as_bytes())) {
            self.state = State::WaitingForReject;
            return AuthAction::Send("CANCEL\r\n");
        }
        if early && bytes_equal(c, "OK".as_bytes()) {
            self.server_guid = arg.to_owned();
            self.state = State::WaitingForAgreeUnixFD;
            return AuthAction::Send("NEGOTIATE_UNIX_FD\r\n");
        }
        if s == State::WaitingForData && bytes_equal(c, "DATA".as_bytes()) {
            return AuthAction::Send("ERROR no mechanism to process challenge\r\n");
        }
        if s == State::WaitingForAgreeUnixFD && bytes_equal(c, "AGREE_UNIX_FD".as_bytes()) {
            return AuthAction::Begin { unix_fd_passing: true };
        }
        if s == State::WaitingForAgreeUnixFD && bytes_equal(c, "ERROR".as_bytes()) {
            return AuthAction::Begin { unix_fd_passing: false };
        }
        if early {
            return AuthAction::Send("ERROR\r\n");
        }
        AuthAction::Invalid
    }
}

/// The line that starts the `EXTERNAL` mechanism for user `uid`:
/// `AUTH EXTERNAL`, the hexadecimal form of the decimal user id, and a line end.
pub fn auth_external_line(uid: u32) -> (r: Vec<u8>)
    ensures
        r@ == "AUTH EXTERNAL ".spec_bytes() + hex_of(decimal(uid as nat)) + "\r\n".spec_bytes(),
{
    let hex = HexU32::new(uid);
    let mut out: Vec<u8> = Vec::new();
    put_bytes(&mut out, "AUTH EXTERNAL ".as_bytes());
    put_bytes(&mut out, hex.as_str().as_bytes());
    put_bytes(&mut out, "\r\n".as_bytes());
    out
}

/// The bytes a client sends first: a nul byte, then the line that starts
/// the `EXTERNAL` mechanism for user `uid`.
pub fn handshake_start(uid: u32) -> (r: Vec<u8>)
    ensures
        r@ == seq![0u8] + "AUTH EXTERNAL ".spec_bytes() + hex_of(decimal(uid as nat)) + "\r\n".spec_bytes(),
{
    let mut out: Vec<u8> = Vec::new();
    out.push(0);
    let line = auth_external_line(uid);
    put_bytes(&mut out, line.as_slice());
    assert(out@ =~= seq![0u8] + "AUTH EXTERNAL ".spec_bytes() + hex_of(decimal(uid as nat)) + "\r\n".spec_bytes());
    out
}

/// An open connection: the stream it runs over, the GUID of the server and
/// whether the two sides agreed to pass file descriptors.
pub struct Connection<S> {
    stream: S,
    server_guid: String,
    unix_fd_passing: bool,
}

impl<S> Connection<S> {
    /// The connection that a finished handshake opens over `stream`.
    pub fn from_parts(stream: S, server_guid: String, unix_fd_passing: bool) -> (r: Self)
        ensures
            r.guid() == server_guid@,
            r.fd_passing() == unix_fd_passing,
            r.stream() == stream,
    {
        Connection { stream, server_guid, unix_fd_passing }
    }

    pub closed spec fn guid(&self) -> Seq<char> {
        self.server_guid@
    }

    pub closed spec fn fd_passing(&self) -> bool {
        self.unix_fd_passing
    }

    pub fn server_guid(&self) -> (r: &str)
        ensures
            r@ == self.guid(),
    {
        self.server_guid.as_str()
    }

    pub fn unix_fd_passing(&self) -> (r: bool)
        ensures
            r == self.fd_passing(),
    {
        self.unix_fd_passing
    }

    pub closed spec fn stream(&self) -> S {
        self.stream
    }

    /// The stream the connection runs over; the GUID and the file descriptor
    /// agreement stay as they are.
    pub fn stream_mut(&mut self) -> (r: &mut S)
        ensures
            *r == old(self).stream(),
            final(self).stream() == *final(r),
            final(self).guid() == old(self).guid(),
            final(self).fd_passing() == old(self).fd_passing(),
    {
        &mut self.stream
    }
}

} // verus!
