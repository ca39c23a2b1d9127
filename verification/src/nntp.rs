//! The line-oriented request/response client of the article protocol:
//! command framing, status-line checking, multi-line body streaming with
//! exact terminator detection, and the connection's health state.
//!
//! The transport itself (a socket, possibly TLS) is behind the [`Stream`]
//! trait, which the embedding program implements; everything above it is
//! verified.

use vstd::prelude::*;
use vstd::slice::slice_subrange;
use vstd::slice::slice_to_vec;
use vstd::string::*;
use crate::error::DownloadError;
use crate::numbers::parse_u64_digits;
use crate::numbers::parse_u64_spec;
use crate::yenc::bytes_eq;
use crate::yenc::find_byte;
use crate::yenc::find_in;
use crate::yenc::FilePart;
use crate::yenc::CR;
use crate::yenc::DOT;
use crate::yenc::LF;
use crate::yenc::SPACE;

verus! {

/// The configuration of one server endpoint, immutable for the process.
#[derive(Clone)]
pub struct Config {
    pub host: String,
    pub port: u16,
    pub user: String,
    pub password: String,
    pub tls: bool,
    pub max_conn: u32,
}

impl Default for Config {
    /// An empty endpoint: no host, port 0, no credentials, TLS off,
    /// no connections allowed.
    fn default() -> (r: Config)
        ensures
            r.host@ == Seq::<char>::empty(),
            r.port == 0,
            r.user@ == Seq::<char>::empty(),
            r.password@ == Seq::<char>::empty(),
            !r.tls,
            r.max_conn == 0,
    {
        Config {
            host: String::new(),
            port: 0,
            user: String::new(),
            password: String::new(),
            tls: false,
            max_conn: 0,
        }
    }
}

/// A reliable byte-stream transport: the embedding program supplies the
/// plaintext or encrypted variant. `read_line` appends one line to `buf`
/// and returns the number of bytes read; nothing further is assumed of
/// either operation.
pub trait Stream {
    fn read_line(&mut self, buf: &mut Vec<u8>) -> Result<usize, DownloadError>;

    fn write_all(&mut self, buf: &[u8]) -> Result<(), DownloadError>;
}

/// A streaming sink for the lines of one article body.
pub trait ArticleConsumer {
    fn consume(&mut self, line: &[u8]) -> Result<Option<FilePart>, DownloadError>;

    fn done(&mut self) -> Result<(), DownloadError>;
}

impl ArticleConsumer for crate::yenc::FileWriter {
    fn consume(&mut self, line: &[u8]) -> Result<Option<FilePart>, DownloadError> {
        crate::yenc::FileWriter::consume(self, line)
    }

    fn done(&mut self) -> Result<(), DownloadError> {
        crate::yenc::FileWriter::done(self)
    }
}

/// The status code of a response line `<code> <message>`: the digits
/// before the first space, read as a decimal number no larger than a
/// `u16` holds.
pub open spec fn status_spec(s: Seq<u8>) -> Option<u16> {
    match parse_u64_spec(s.subrange(0, find_in(s, SPACE, 0, s.len() as int))) {
        Some(v) => if v <= 65535 {
            Some(v as u16)
        } else {
            None
        },
        None => None,
    }
}

/// Read the status code off a response line.
pub fn parse_status(line: &[u8]) -> (r: Option<u16>)
    ensures
        r == status_spec(line@),
{
    let e = find_byte(line, SPACE, 0, line.len());
    let tok = slice_subrange(line, 0, e);
    match parse_u64_digits(tok) {
        Some(v) => if v <= 65535 {
            Some(v as u16)
        } else {
            None
        },
        None => None,
    }
}

/// A line holding exactly `.` and CRLF ends a multi-line body.
pub open spec fn is_terminator_spec(s: Seq<u8>) -> bool {
    s.len() == 3 && s[0] == DOT && s[1] == CR && s[2] == LF
}

pub fn is_terminator(line: &[u8]) -> (r: bool)
    ensures
        r == is_terminator_spec(line@),
{
    line.len() == 3 && line[0] == DOT && line[1] == CR && line[2] == LF
}

/// `"BODY <"`, the article id, `">"`, CRLF.
pub open spec fn body_cmd_spec(id: Seq<u8>) -> Seq<u8> {
    seq![66u8, 79u8, 68u8, 89u8, 32u8, 60u8] + id + seq![62u8, 13u8, 10u8]
}

/// `"GROUP "`, the group name, CRLF.
pub open spec fn group_cmd_spec(g: Seq<u8>) -> Seq<u8> {
    seq![71u8, 82u8, 79u8, 85u8, 80u8, 32u8] + g + seq![13u8, 10u8]
}

/// `"AUTHINFO USER "`, the user name, CRLF.
pub open spec fn auth_user_cmd_spec(u: Seq<u8>) -> Seq<u8> {
    seq![65u8, 85u8, 84u8, 72u8, 73u8, 78u8, 70u8, 79u8, 32u8, 85u8, 83u8, 69u8, 82u8, 32u8] + u
        + seq![13u8, 10u8]
}

/// `"AUTHINFO PASS "`, the password, CRLF.
pub open spec fn auth_pass_cmd_spec(p: Seq<u8>) -> Seq<u8> {
    seq![65u8, 85u8, 84u8, 72u8, 73u8, 78u8, 70u8, 79u8, 32u8, 80u8, 65u8, 83u8, 83u8, 32u8] + p
        + seq![13u8, 10u8]
}

/// Append all of `s` to `out`.
pub fn push_all(out: &mut Vec<u8>, s: &[u8])
    ensures
        final(out)@ == old(out)@ + s@,
{
    let n: usize = s.len();
    let mut i: usize = 0;
    while i < n
        invariant
            n == s@.len(),
            i <= n,
            out@ =~= old(out)@ + s@.subrange(0, i as int),
        decreases n - i,
    {
        out.push(s[i]);
        i = i + 1;
    }
    assert(out@ =~= old(out)@ + s@);
}

pub fn body_cmd(id: &[u8]) -> (r: Vec<u8>)
    ensures
        r@ == body_cmd_spec(id@),
{
    let mut v: Vec<u8> = Vec::new();
    v.push(66);
    v.push(79);
    v.push(68);
    v.push(89);
    v.push(32);
    v.push(60);
    push_all(&mut v, id);
    v.push(62);
    v.push(13);
    v.push(10);
    assert(v@ =~= body_cmd_spec(id@));
    v
}

pub fn group_cmd(g: &[u8]) -> (r: Vec<u8>)
    ensures
        r@ == group_cmd_spec(g@),
{
    let mut v: Vec<u8> = Vec::new();
    v.push(71);
    v.push(82);
    v.push(79);
    v.push(85);
    v.push(80);
    v.push(32);
    push_all(&mut v, g);
    v.push(13);
    v.push(10);
    assert(v@ =~= group_cmd_spec(g@));
    v
}

pub fn auth_user_cmd(u: &[u8]) -> (r: Vec<u8>)
    ensures
        r@ == auth_user_cmd_spec(u@),
{
    let mut v: Vec<u8> = Vec::new();
    v.push(65);
    v.push(85);
    v.push(84);
    v.push(72);
    v.push(73);
    v.push(78);
    v.push(70);
    v.push(79);
    v.push(32);
    v.push(85);
    v.push(83);
    v.push(69);
    v.push(82);
    v.push(32);
    push_all(&mut v, u);
    v.push(13);
    v.push(10);
    assert(v@ =~= auth_user_cmd_spec(u@));
    v
}

pub fn auth_pass_cmd(p: &[u8]) -> (r: Vec<u8>)
    ensures
        r@ == auth_pass_cmd_spec(p@),
{
    let mut v: Vec<u8> = Vec::new();
    v.push(65);
    v.push(85);
    v.push(84);
    v.push(72);
    v.push(73);
    v.push(78);
    v.push(70);
    v.push(79);
    v.push(32);
    v.push(80);
    v.push(65);
    v.push(83);
    v.push(83);
    v.push(32);
    push_all(&mut v, p);
    v.push(13);
    v.push(10);
    assert(v@ =~= auth_pass_cmd_spec(p@));
    v
}

/// How a command can fail: a transport fault marks the connection
/// disconnected; a malformed or mismatching status line leaves the
/// transport sound but aborts the operation.
pub open spec fn command_failure(e: DownloadError, expected: u16, o_disc: bool, n_disc: bool) -> bool {
    ((e == DownloadError::Transport || e == DownloadError::Disconnected) && n_disc) || (n_disc
        == o_disc && (e == DownloadError::BadResponse || (match e {
        DownloadError::Protocol { expected: ex, got } => ex == expected && got != expected,
        _ => false,
    })))
}

/// One pooled protocol connection: the transport, the last line read,
/// the health flag, and the group the server currently has selected.
pub struct Connection<S> {
    pub stream: S,
    pub buff: Vec<u8>,
    pub disconnected: bool,
    pub current_group: Vec<u8>,
}

impl<S: Stream> Connection<S> {
    /// Wrap a fresh transport and validate the server greeting (200).
    pub fn init(stream: S) -> (r: Result<Connection<S>, DownloadError>)
        ensures
            match r {
                Ok(c) => !c.disconnected && c.current_group@ == Seq::<u8>::empty() && status_spec(
                    c.buff@,
                ) == Some(200u16),
                Err(e) => e == DownloadError::Transport || e == DownloadError::Disconnected || e
                    == DownloadError::BadResponse || (match e {
                    DownloadError::Protocol { expected, got } => expected == 200 && got != 200,
                    _ => false,
                }),
            },
    {
        let mut conn = Connection {
            stream,
            buff: Vec::new(),
            disconnected: false,
            current_group: Vec::new(),
        };
        match conn.read_response_line(200) {
            Ok(()) => Ok(conn),
            Err(e) => Err(e),
        }
    }

    /// Read one line into the buffer. A transport fault or a zero-length
    /// read (closed stream) marks the connection disconnected.
    pub fn read_line(&mut self) -> (r: Result<(), DownloadError>)
        ensures
            final(self).current_group == old(self).current_group,
            match r {
                Ok(()) => final(self).buff@.len() > 0 && final(self).disconnected == old(self).disconnected,
                Err(e) => final(self).disconnected && (e == DownloadError::Transport || e
                    == DownloadError::Disconnected),
            },
    {
        self.buff.clear();
        let res = self.stream.read_line(&mut self.buff);
        match res {
            Err(_) => {
                self.disconnected = true;
                Err(DownloadError::Transport)
            },
            Ok(_) => {
                if self.buff.len() == 0 {
                    self.disconnected = true;
                    Err(DownloadError::Disconnected)
                } else {
                    Ok(())
                }
            },
        }
    }

    /// Read one response line and require its status code.
    pub fn read_response_line(&mut self, expected: u16) -> (r: Result<(), DownloadError>)
        ensures
            final(self).current_group == old(self).current_group,
            r == Err::<(), DownloadError>(DownloadError::BadResponse) ==> status_spec(
                final(self).buff@,
            ) is None,
            (match r {
                Err(DownloadError::Protocol { expected: ex, got }) => ex == expected && got
                    != expected && status_spec(final(self).buff@) == Some(got),
                _ => true,
            }),
            match r {
                Ok(()) => status_spec(final(self).buff@) == Some(expected) && final(self).disconnected == old(self).disconnected,
                Err(e) => command_failure(
                    e,
                    expected,
                    old(self).disconnected,
                    final(self).disconnected,
                ),
            },
    {
        match self.read_line() {
            Err(e) => {
                return Err(e);
            },
            Ok(()) => {},
        }
        match parse_status(self.buff.as_slice()) {
            None => Err(DownloadError::BadResponse),
            Some(got) => {
                if got != expected {
                    Err(DownloadError::Protocol { expected, got })
                } else {
                    Ok(())
                }
            },
        }
    }

    /// Send one command line and require the expected response status.
    pub fn command(&mut self, cmd: &[u8], expected: u16) -> (r: Result<(), DownloadError>)
        ensures
            final(self).current_group == old(self).current_group,
            r == Err::<(), DownloadError>(DownloadError::BadResponse) ==> status_spec(
                final(self).buff@,
            ) is None,
            (match r {
                Err(DownloadError::Protocol { expected: ex, got }) => ex == expected && got
                    != expected && status_spec(final(self).buff@) == Some(got),
                _ => true,
            }),
            match r {
                Ok(()) => status_spec(final(self).buff@) == Some(expected) && final(self).disconnected == old(self).disconnected,
                Err(e) => command_failure(
                    e,
                    expected,
                    old(self).disconnected,
                    final(self).disconnected,
                ),
            },
    {
        match self.stream.write_all(cmd) {
            Err(_) => {
                self.disconnected = true;
                return Err(DownloadError::Transport);
            },
            Ok(()) => {},
        }
        self.read_response_line(expected)
    }

    /// Select a news group (expects 211), unless it is already current:
    /// asking for the group that is already selected succeeds without
    /// touching the stream or the state, so repeated calls with one
    /// name amount to a single selection.
    pub fn set_group(&mut self, group: &str) -> (r: Result<(), DownloadError>)
        ensures
            old(self).current_group@ == group.spec_bytes() ==> r is Ok && *final(self) == *old(self),
            match r {
                Ok(()) => final(self).current_group@ == group.spec_bytes() && final(self).disconnected == old(self).disconnected,
                Err(e) => final(self).current_group == old(self).current_group && command_failure(
                    e,
                    211,
                    old(self).disconnected,
                    final(self).disconnected,
                ),
            },
    {
        let gb = group.as_bytes();
        if bytes_eq(self.current_group.as_slice(), gb) {
            return Ok(());
        }
        let cmd = group_cmd(gb);
        match self.command(cmd.as_slice(), 211) {
            Err(e) => Err(e),
            Ok(()) => {
                self.current_group = slice_to_vec(gb);
                Ok(())
            },
        }
    }

    /// Authenticate: user name expecting a continuation status (381),
    /// then password expecting success (281).
    pub fn authenticate(&mut self, user: &str, password: &str) -> (r: Result<(), DownloadError>)
        ensures
            final(self).current_group == old(self).current_group,
            match r {
                Ok(()) => final(self).disconnected == old(self).disconnected,
                Err(e) => command_failure(
                    e,
                    381,
                    old(self).disconnected,
                    final(self).disconnected,
                ) || command_failure(e, 281, old(self).disconnected, final(self).disconnected),
            },
    {
        let ucmd = auth_user_cmd(user.as_bytes());
        match self.command(ucmd.as_slice(), 381) {
            Err(e) => {
                return Err(e);
            },
            Ok(()) => {},
        }
        let pcmd = auth_pass_cmd(password.as_bytes());
        match self.command(pcmd.as_slice(), 281) {
            Err(e) => {
                return Err(e);
            },
            Ok(()) => {},
        }
        Ok(())
    }

    /// Request an article body (expects 222) and stream every line but
    /// the terminator to the consumer; chunks the consumer emits are
    /// appended to `parts`. The terminator is an exact match of the
    /// line `.` CRLF, never a prefix check. The health flag changes
    /// only on a transport fault: a status mismatch or a malformed
    /// response aborts the operation with the connection still sound.
    pub fn article_body<C: ArticleConsumer>(
        &mut self,
        name: &str,
        consumer: &mut C,
        parts: &mut Vec<FilePart>,
    ) -> (r: Result<(), DownloadError>)
        ensures
            final(self).current_group == old(self).current_group,
            final(parts)@.len() >= old(parts)@.len(),
            final(parts)@.subrange(0, old(parts)@.len() as int) == old(parts)@,
            match r {
                Ok(()) => is_terminator_spec(final(self).buff@) && final(self).disconnected == old(self).disconnected,
                Err(e) => final(self).disconnected == old(self).disconnected || e
                    == DownloadError::Transport || e == DownloadError::Disconnected,
            },
    {
        let cmd = body_cmd(name.as_bytes());
        match self.command(cmd.as_slice(), 222) {
            Err(e) => {
                assert(final(parts)@.subrange(0, old(parts)@.len() as int) =~= old(parts)@);
                return Err(e);
            },
            Ok(()) => {},
        }
        // A line budget no real article comes near bounds the read loop,
        // so that it provably terminates; exhausting it reads as the
        // transport having gone silent.
        let mut budget: usize = usize::MAX;
        loop
            invariant
                self.current_group == old(self).current_group,
                self.disconnected == old(self).disconnected,
                parts@.len() >= old(parts)@.len(),
                parts@.subrange(0, old(parts)@.len() as int) == old(parts)@,
            decreases budget,
        {
            if budget == 0 {
                self.disconnected = true;
                return Err(DownloadError::Transport);
            }
            budget = budget - 1;
            match self.read_line() {
                Err(e) => {
                    return Err(e);
                },
                Ok(()) => {},
            }
            if is_terminator(self.buff.as_slice()) {
                return match consumer.done() {
                    Err(e) => Err(e),
                    Ok(()) => Ok(()),
                };
            }
            match consumer.consume(self.buff.as_slice()) {
                Err(e) => {
                    return Err(e);
                },
                Ok(Some(part)) => {
                    parts.push(part);
                    assert(parts@.subrange(0, old(parts)@.len() as int) =~= old(parts)@);
                },
                Ok(None) => {},
            }
        }
    }
}

} // verus!
