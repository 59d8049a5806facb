//! The accept loop: what becomes of a connection, and what the daemon says when
//! it is up.
use crate::daemon::conns::{ConnGate, MAX_CONCURRENT_CONNS};
use crate::path;
use crate::text;
use vstd::prelude::*;
use vstd::string::*;

verus! {

/// How long a connection may wait for its first byte, in seconds.
pub const CONN_READ_TIMEOUT_SECS: u64 = 30;

/// How long the loop rests after a listener failed, in milliseconds.
pub const ACCEPT_ERROR_BACKOFF_MS: u64 = 200;

/// How often the watched files are looked at, in seconds.
pub const CONFIG_POLL_SECS: u64 = 2;

/// How long a subscriber is left without a word, in seconds.
pub const KEEPALIVE_SECS: u64 = 30;

/// `libc::EINVAL`: twenty-two on Linux and on macOS.
#[verifier::external_body]
fn einval() -> (r: i32)
    ensures
        r == 22,
{
    libc::EINVAL
}

/// Whether readying a connection failed because its peer has hung up already,
/// which liveness probes do by design.
pub fn is_dead_peer(errno: Option<i32>) -> (r: bool)
    ensures
        r == (errno == Some(22i32)),
{
    match errno {
        Some(code) => code == einval(),
        None => false,
    }
}

/// The two sockets.
#[derive(Debug, Clone, Copy, PartialEq, Eq, Structural)]
pub enum Socket {
    Control,
    Ssh,
}

/// What happened at a socket.
pub enum Accepted {
    /// The listener failed.
    Failed(String),
    /// A connection came in.
    Opened,
}

/// What becomes of it.
pub enum AcceptNext {
    /// Log, rest, and go on accepting.
    Rest { log: String },
    /// Drop the connection and go on, with a line to log where there is one.
    Drop { log: Option<String> },
    /// Ready the connection: it has a slot.
    Ready,
}

/// What is said of a listener that failed.
pub open spec fn accept_text(socket: Socket, e: Seq<char>) -> Seq<char> {
    match socket {
        Socket::Control => "sigil daemon: control accept error: "@ + e,
        Socket::Ssh => "sigil daemon: ssh accept error: "@ + e,
    }
}

/// What is said of a connection that finds no slot.
pub open spec fn full_text(socket: Socket) -> Seq<char> {
    (match socket {
        Socket::Control => "sigil daemon: refusing a control connection: at the concurrency cap ("@,
        Socket::Ssh => "sigil daemon: refusing an ssh-agent connection: at the concurrency cap ("@,
    }) + text::decimal(MAX_CONCURRENT_CONNS as nat) + ")"@
}

/// What is said of a connection that could not be readied.
pub open spec fn drop_text(socket: Socket, e: Seq<char>) -> Seq<char> {
    match socket {
        Socket::Control => "sigil daemon: dropping a control connection: "@ + e,
        Socket::Ssh => "sigil daemon: dropping an ssh-agent connection: "@ + e,
    }
}

/// What becomes of what happened at a socket. No failure ends the loop.
pub fn accept(gate: &mut ConnGate, socket: Socket, what: Accepted) -> (r: AcceptNext)
    ensures
        match what {
            Accepted::Failed(e) => (r matches AcceptNext::Rest { log } && log@ == accept_text(
                socket,
                e@,
            )) && final(gate).served() == old(gate).served(),
            Accepted::Opened => if old(gate).served() < MAX_CONCURRENT_CONNS {
                r is Ready && final(gate).served() == old(gate).served() + 1
            } else {
                (r matches AcceptNext::Drop { log: Some(log) } && log@ == full_text(socket))
                    && final(gate).served() == old(gate).served()
            },
        },
{
    let mut s = String::new();
    match what {
        Accepted::Failed(e) => {
            match socket {
                Socket::Control => {
                    s.append("sigil daemon: control accept error: ");
                },
                Socket::Ssh => {
                    s.append("sigil daemon: ssh accept error: ");
                },
            }
            s.append(e.as_str());
            assert(s@ =~= accept_text(socket, e@));
            AcceptNext::Rest { log: s }
        },
        Accepted::Opened => {
            if gate.try_enter() {
                return AcceptNext::Ready;
            }
            match socket {
                Socket::Control => {
                    s.append(
                        "sigil daemon: refusing a control connection: at the concurrency cap (",
                    );
                },
                Socket::Ssh => {
                    s.append(
                        "sigil daemon: refusing an ssh-agent connection: at the concurrency cap (",
                    );
                },
            }
            text::push_decimal(&mut s, MAX_CONCURRENT_CONNS as u128);
            s.append(")");
            assert(s@ =~= full_text(socket));
            AcceptNext::Drop { log: Some(s) }
        },
    }
}

/// What becomes of a connection that was to be readied; `None` is that it is
/// served. One that failed gives its slot back, and a peer that hung up is dropped
/// without a word.
pub fn readied(gate: &mut ConnGate, socket: Socket, ready: Result<(), (Option<i32>, String)>) -> (r:
    Option<AcceptNext>)
    requires
        old(gate).served() > 0,
    ensures
        match ready {
            Ok(_) => r is None && final(gate).served() == old(gate).served(),
            Err((errno, e)) => {
                &&& final(gate).served() == old(gate).served() - 1
                &&& r matches Some(AcceptNext::Drop { log }) && text::maybe_text(log) == (if errno
                    == Some(22i32) {
                    None
                } else {
                    Some(drop_text(socket, e@))
                })
            },
        },
{
    match ready {
        Ok(_) => None,
        Err((errno, e)) => {
            gate.leave();
            if is_dead_peer(errno) {
                return Some(AcceptNext::Drop { log: None });
            }
            let mut s = String::new();
            match socket {
                Socket::Control => {
                    s.append("sigil daemon: dropping a control connection: ");
                },
                Socket::Ssh => {
                    s.append("sigil daemon: dropping an ssh-agent connection: ");
                },
            }
            s.append(e.as_str());
            assert(s@ =~= drop_text(socket, e@));
            Some(AcceptNext::Drop { log: Some(s) })
        },
    }
}

/// What the daemon says when it is armed.
pub open spec fn armed_text(sock: Seq<u8>, sealed: nat, factor: Seq<char>) -> Seq<char> {
    "sigil daemon: armed on "@ + path::utf8_lossy(sock) + " · "@ + text::decimal(sealed)
        + " sealed secret(s) · factor: "@ + factor
}

/// What the daemon says when it is armed.
pub fn armed_line(sock: &[u8], sealed: usize, factor: &str) -> (r: String)
    ensures
        r@ == armed_text(sock@, sealed as nat, factor@),
{
    let shown = path::lossy(sock);
    let mut s = String::new();
    s.append("sigil daemon: armed on ");
    s.append(shown.as_str());
    s.append(" · ");
    text::push_decimal(&mut s, sealed as u128);
    s.append(" sealed secret(s) · factor: ");
    s.append(factor);
    assert(s@ =~= armed_text(sock@, sealed as nat, factor@));
    s
}

/// What the daemon says of its agent socket.
pub open spec fn agent_text(sock: Seq<u8>, keys: nat) -> Seq<char> {
    "sigil daemon: ssh-agent on "@ + path::utf8_lossy(sock) + " · "@ + text::decimal(keys)
        + " key(s) served · export SSH_AUTH_SOCK="@ + path::utf8_lossy(sock)
}

/// What the daemon says of its agent socket.
pub fn agent_line(sock: &[u8], keys: usize) -> (r: String)
    ensures
        r@ == agent_text(sock@, keys as nat),
{
    let shown = path::lossy(sock);
    let mut s = String::new();
    s.append("sigil daemon: ssh-agent on ");
    s.append(shown.as_str());
    s.append(" · ");
    text::push_decimal(&mut s, keys as u128);
    s.append(" key(s) served · export SSH_AUTH_SOCK=");
    s.append(shown.as_str());
    assert(s@ =~= agent_text(sock@, keys as nat));
    s
}

/// What is logged of a connection names what went wrong, and what is logged when the
/// daemon is up names its sockets and what it serves.
pub proof fn a_logged_line_says_what_it_is_about(
    socket: Socket,
    e: Seq<char>,
    sock: Seq<u8>,
    n: nat,
    factor: Seq<char>,
)
    ensures
        text::occurs_in(accept_text(socket, e), e),
        text::occurs_in(drop_text(socket, e), e),
        text::occurs_in(full_text(socket), text::decimal(MAX_CONCURRENT_CONNS as nat)),
        text::occurs_in(armed_text(sock, n, factor), path::utf8_lossy(sock)),
        text::occurs_in(armed_text(sock, n, factor), text::decimal(n)),
        text::occurs_in(armed_text(sock, n, factor), factor),
        text::occurs_in(agent_text(sock, n), path::utf8_lossy(sock)),
        text::occurs_in(agent_text(sock, n), text::decimal(n)),
{
    broadcast use text::parts_stand_in;

}

/// A connection is readied exactly where a slot is free, and then it takes one; nothing
/// else takes a slot, and a connection that could not be readied gives its own back.
pub proof fn a_connection_takes_one_slot(
    g: &mut ConnGate,
    socket: Socket,
    what: Accepted,
    r: AcceptNext,
)
    requires
        call_ensures(accept, (g, socket, what), r),
    ensures
        r is Ready <==> what is Opened && old(g).served() < 32,
        r is Ready ==> final(g).served() == old(g).served() + 1,
        !(r is Ready) ==> final(g).served() == old(g).served(),
        what is Failed <==> r is Rest,
{
}

/// A connection that could not be readied gives its slot back, and one that could keeps
/// it.
pub proof fn a_slot_is_given_back(
    g: &mut ConnGate,
    socket: Socket,
    ready: Result<(), (Option<i32>, String)>,
    r: Option<AcceptNext>,
)
    requires
        call_ensures(readied, (g, socket, ready), r),
        old(g).served() > 0,
    ensures
        ready is Ok <==> r is None,
        ready is Ok ==> final(g).served() == old(g).served(),
        ready is Err ==> final(g).served() + 1 == old(g).served(),
{
}

} // verus!
