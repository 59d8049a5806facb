//! What the daemon answers on its socket.
use crate::text;
use vstd::prelude::*;
use vstd::string::*;

verus! {

/// One answer.
#[derive(Debug, Clone, PartialEq, Eq)]
pub enum Reply {
    /// The exit code to mirror to the caller.
    Exit { code: i32 },
    /// Whether a control request did what it asked, in words.
    Control { ok: bool, lines: Vec<String> },
}

/// An answer as plain values.
#[verifier::ext_equal]
pub enum ReplyView {
    Exit { code: i32 },
    Control { ok: bool, lines: Seq<Seq<char>> },
}

impl View for Reply {
    type V = ReplyView;

    open spec fn view(&self) -> ReplyView {
        match self {
            Reply::Exit { code } => ReplyView::Exit { code: *code },
            Reply::Control { ok, lines } => ReplyView::Control {
                ok: *ok,
                lines: text::texts(lines@),
            },
        }
    }
}

/// A control answer of one line.
pub open spec fn said(ok: bool, line: Seq<char>) -> ReplyView {
    ReplyView::Control { ok, lines: seq![line] }
}

/// A control answer of one line.
pub fn control_line(ok: bool, line: String) -> (r: Reply)
    ensures
        r@ == said(ok, line@),
{
    let mut lines: Vec<String> = Vec::new();
    lines.push(line);
    let r = Reply::Control { ok, lines };
    assert(r@ =~= said(ok, line@));
    r
}

/// A control answer of one line.
pub fn control_reply(ok: bool, msg: &str) -> (r: Reply)
    ensures
        r@ == said(ok, msg@),
{
    control_line(ok, msg.to_owned())
}

/// A control answer of one line: `lead`, then `rest`.
pub fn control_with(ok: bool, lead: &str, rest: &str) -> (r: Reply)
    ensures
        r@ == said(ok, lead@ + rest@),
{
    let mut s = String::new();
    s.append(lead);
    s.append(rest);
    assert(s@ =~= lead@ + rest@);
    control_line(ok, s)
}

} // verus!
