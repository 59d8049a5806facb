//! One daemon per runtime directory: what is said of a lock that is taken.
use crate::text;
use vstd::prelude::*;

verus! {

/// The lock file's name inside the runtime directory.
pub const LOCK_FILE: &'static str = "daemon.lock";

/// Why an instance lock could not be taken.
#[derive(Debug, Clone, PartialEq, Eq)]
pub enum Taken {
    /// Another process holds it. `pid` is what that process recorded, for the
    /// person and not for any decision.
    Busy { pid: Option<i32> },
    /// The lock file could not be opened or locked for some other reason.
    Io(String),
}

impl Taken {
    /// What is said of it.
    pub open spec fn text(self) -> Seq<char> {
        match self {
            Taken::Busy { pid: Some(pid) } => "another sigil daemon is already running (pid "@
                + text::signed_decimal(pid as int) + ")"@,
            Taken::Busy { pid: None } => "another sigil daemon is already running"@,
            Taken::Io(e) => "cannot take the single-instance lock: "@ + e@,
        }
    }

    /// What is said of it.
    pub fn message(&self) -> (r: String)
        ensures
            r@ == self.text(),
    {
        match self {
            Taken::Busy { pid: Some(pid) } => {
                let mut s = "another sigil daemon is already running (pid ".to_owned();
                s.append(text::signed_decimal_text(*pid).as_str());
                s.append(")");
                s
            },
            Taken::Busy { pid: None } => "another sigil daemon is already running".to_owned(),
            Taken::Io(e) => {
                let mut s = "cannot take the single-instance lock: ".to_owned();
                s.append(e.as_str());
                s
            },
        }
    }
}

/// What trying to lock the file came to.
#[derive(Debug, Clone, PartialEq, Eq)]
pub enum LockAttempt {
    /// The lock is held now.
    Held,
    /// The system refused the lock, with this error number and text. `recorded`
    /// is what the lock file holds, where it could be read.
    Refused { code: Option<i32>, error: String, recorded: Option<String> },
    /// The file could not be opened.
    Failed(String),
}

/// The pid that a lock file records, where it parses.
pub fn recorded_pid(content: &str) -> (r: Option<i32>)
    ensures
        r == text::read_i32(text::trimmed(content@)),
{
    let t = text::trim(content);
    text::parse_i32(t.as_str())
}

/// What a lock attempt means, where `again` is the error number of a lock that
/// another process holds: a second instance is refused and told who holds the
/// lock, where that is recorded.
pub open spec fn judged(attempt: LockAttempt, again: i32) -> Result<(), Taken> {
    match attempt {
        LockAttempt::Held => Ok(()),
        LockAttempt::Refused { code, error, recorded } => if code == Some(again) {
            Err(
                Taken::Busy {
                    pid: match recorded {
                        Some(s) => text::read_i32(text::trimmed(s@)),
                        None => None,
                    },
                },
            )
        } else {
            Err(Taken::Io(error))
        },
        LockAttempt::Failed(e) => Err(Taken::Io(e)),
    }
}

/// `libc::EWOULDBLOCK`, the error number of a lock that another process holds:
/// eleven on Linux and thirty-five on macOS.
#[verifier::external_body]
fn would_block() -> (r: i32)
    ensures
        r == 11 || r == 35,
{
    libc::EWOULDBLOCK
}

/// What a lock attempt means, where `again` is the error number of a lock that
/// another process holds.
pub fn judge_by(attempt: LockAttempt, again: i32) -> (r: Result<(), Taken>)
    ensures
        r == judged(attempt, again),
{
    match attempt {
        LockAttempt::Held => Ok(()),
        LockAttempt::Refused { code, error, recorded } => {
            let busy = match code {
                Some(c) => c == again,
                None => false,
            };
            if !busy {
                return Err(Taken::Io(error));
            }
            let pid: Option<i32> = match recorded {
                Some(s) => recorded_pid(s.as_str()),
                None => None,
            };
            Err(Taken::Busy { pid })
        },
        LockAttempt::Failed(e) => Err(Taken::Io(e)),
    }
}

/// What a lock attempt means on this machine.
pub fn judge(attempt: LockAttempt) -> (r: Result<(), Taken>)
    ensures
        r == judged(attempt, 11) || r == judged(attempt, 35),
{
    judge_by(attempt, would_block())
}

/// Whether an attempt shows that some process holds the lock.
pub fn is_held(attempt: &Result<(), Taken>) -> (r: bool)
    ensures
        r == (*attempt matches Err(t) && t is Busy),
{
    matches!(attempt, Err(Taken::Busy { .. }))
}

/// A daemon starts exactly where it holds the lock. One that finds it held is told so,
/// with the process that the file records; any other failure is passed on as it is.
pub proof fn a_second_daemon_is_refused(
    attempt: LockAttempt,
    again: i32,
    holder: i32,
    written: String,
)
    requires
        written@ == text::signed_decimal(holder as int) || written@ == text::signed_decimal(
            holder as int,
        ).push('\n'),
    ensures
        judged(attempt, again) is Ok <==> attempt is Held,
        judged(attempt, again) matches Err(Taken::Busy { .. }) ==> attempt matches
            LockAttempt::Refused { code: Some(c), .. } && c == again,
        attempt matches LockAttempt::Failed(e) ==> judged(attempt, again) == Err::<(), Taken>(
            Taken::Io(e),
        ),
        attempt matches LockAttempt::Refused { code, error, .. } ==> (code != Some(again)
            ==> judged(attempt, again) == Err::<(), Taken>(Taken::Io(error))),
        attempt matches LockAttempt::Refused { code, recorded: Some(s), .. } ==> (code == Some(
            again,
        ) && s == written ==> judged(attempt, again) == Err::<(), Taken>(
            Taken::Busy { pid: Some(holder) },
        )),
        attempt matches LockAttempt::Refused { code, recorded: None, .. } ==> (code == Some(again)
            ==> judged(attempt, again) == Err::<(), Taken>(Taken::Busy { pid: None })),
{
    let d = text::signed_decimal(holder as int);
    text::a_signed_numeral_reads_back(holder);
    if written@ == d.push('\n') {
        assert(written@[0] == d[0]);
        assert(text::trimmed_start(written@) == written@);
        assert(written@.drop_last() =~= d);
        assert(text::trimmed_end(d) == d);
    }
}

/// What is said of a taken lock names the process that holds it, or what went wrong.
pub proof fn a_taken_lock_says_who_or_why(pid: i32, e: String)
    ensures
        text::occurs_in(
            (Taken::Busy { pid: Some(pid) }).text(),
            text::signed_decimal(pid as int),
        ),
        text::occurs_in(Taken::Io(e).text(), e@),
{
    broadcast use text::parts_stand_in;

}

} // verus!
