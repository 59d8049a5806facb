//! Watching the files that are reloaded while the daemon runs.
use crate::path;
use crate::text;
use vstd::prelude::*;
use vstd::string::*;

verus! {

/// The times at which the watched files were last changed, as they were last
/// seen; `None` for a file that is not there. The two optional files are watched
/// where they have a path.
pub struct Watcher {
    pub config: Option<i128>,
    pub ssh: Option<Option<i128>>,
    pub sealed: Option<Option<i128>>,
}

/// Which files are to be reloaded.
#[derive(Debug, Clone, Copy, PartialEq, Eq, Structural)]
pub struct Reloads {
    pub config: bool,
    pub ssh: bool,
    pub sealed: bool,
}

fn same_time(a: Option<i128>, b: Option<i128>) -> (r: bool)
    ensures
        r == (a == b),
{
    match (a, b) {
        (Some(x), Some(y)) => x == y,
        (None, None) => true,
        _ => false,
    }
}

fn seen(last: &mut Option<Option<i128>>, current: Option<i128>) -> (r: bool)
    ensures
        r == (*old(last) matches Some(t) && t != current),
        *final(last) == (if *old(last) is Some {
            Some(current)
        } else {
            None
        }),
{
    match *last {
        None => false,
        Some(t) => {
            let changed = !same_time(t, current);
            *last = Some(current);
            changed
        },
    }
}

impl Watcher {
    /// Look at the files once more: what has changed since the last look, where
    /// coming to be and going away are changes too, is to be reloaded.
    pub fn tick(&mut self, config: Option<i128>, ssh: Option<i128>, sealed: Option<i128>) -> (r:
        Reloads)
        ensures
            r.config == (old(self).config != config),
            r.ssh == (old(self).ssh matches Some(t) && t != ssh),
            r.sealed == (old(self).sealed matches Some(t) && t != sealed),
            final(self).config == config,
            final(self).ssh == (if old(self).ssh is Some {
                Some(ssh)
            } else {
                None
            }),
            final(self).sealed == (if old(self).sealed is Some {
                Some(sealed)
            } else {
                None
            }),
    {
        let changed = !same_time(self.config, config);
        self.config = config;
        let ssh_changed = seen(&mut self.ssh, ssh);
        let sealed_changed = seen(&mut self.sealed, sealed);
        Reloads { config: changed, ssh: ssh_changed, sealed: sealed_changed }
    }
}

/// A reloaded file.
#[derive(Debug, Clone, Copy, PartialEq, Eq, Structural)]
pub enum Watched {
    Config,
    Ssh,
    Sealed,
}

/// What is logged of a reload: where it came from, or that the last good state
/// stays in force. `armed` is how many records a sealed store holds.
pub open spec fn reload_text(
    what: Watched,
    from: Seq<u8>,
    came: Result<nat, Seq<char>>,
) -> Seq<char> {
    match (what, came) {
        (Watched::Config, Ok(_)) => "sigil daemon: reloaded config from "@ + path::utf8_lossy(from),
        (Watched::Config, Err(e)) =>
        "sigil daemon: config reload failed, keeping last-good rules: "@ + e,
        (Watched::Ssh, Ok(_)) => "sigil daemon: reloaded SSH keys from "@ + path::utf8_lossy(from),
        (Watched::Ssh, Err(e)) => "sigil daemon: SSH key reload failed, keeping last-good keys: "@
            + e,
        (Watched::Sealed, Ok(n)) => "sigil daemon: reloaded the sealed store from "@
            + path::utf8_lossy(from) + " ("@ + text::decimal(n) + " sealed secret(s))"@,
        (Watched::Sealed, Err(e)) =>
        "sigil daemon: sealed store reload failed, keeping the last-good records: "@ + e,
    }
}

/// What is logged of a reload.
pub fn reload_line(what: Watched, from: &[u8], came: Result<usize, String>) -> (r: String)
    ensures
        r@ == reload_text(
            what,
            from@,
            match came {
                Ok(n) => Ok(n as nat),
                Err(e) => Err(e@),
            },
        ),
{
    let mut s = String::new();
    match came {
        Ok(n) => {
            let shown = path::lossy(from);
            match what {
                Watched::Config => {
                    s.append("sigil daemon: reloaded config from ");
                    s.append(shown.as_str());
                },
                Watched::Ssh => {
                    s.append("sigil daemon: reloaded SSH keys from ");
                    s.append(shown.as_str());
                },
                Watched::Sealed => {
                    s.append("sigil daemon: reloaded the sealed store from ");
                    s.append(shown.as_str());
                    s.append(" (");
                    text::push_decimal(&mut s, n as u128);
                    s.append(" sealed secret(s))");
                },
            }
        },
        Err(e) => {
            match what {
                Watched::Config => {
                    s.append("sigil daemon: config reload failed, keeping last-good rules: ");
                },
                Watched::Ssh => {
                    s.append("sigil daemon: SSH key reload failed, keeping last-good keys: ");
                },
                Watched::Sealed => {
                    s.append(
                        "sigil daemon: sealed store reload failed, keeping the last-good records: ",
                    );
                },
            }
            s.append(e.as_str());
        },
    }
    assert(s@ =~= reload_text(
        what,
        from@,
        match came {
            Ok(n) => Ok(n as nat),
            Err(e) => Err(e@),
        },
    ));
    s
}

/// What is logged of a reload names the file that it came from, or the reason why
/// the last good state stays; and how many records a sealed store holds.
pub proof fn a_reload_says_where_from_or_why(what: Watched, from: Seq<u8>, n: nat, e: Seq<char>)
    ensures
        text::occurs_in(reload_text(what, from, Ok(n)), path::utf8_lossy(from)),
        text::occurs_in(reload_text(what, from, Err(e)), e),
        what == Watched::Sealed ==> text::occurs_in(
            reload_text(what, from, Ok(n)),
            text::decimal(n),
        ),
{
    broadcast use text::parts_stand_in;

}

/// A file is loaded afresh exactly where it is not as it was at the last look, and what
/// is remembered is this look; a file that is not watched never is.
pub proof fn a_file_is_reloaded_where_it_changed(
    w: &mut Watcher,
    config: Option<i128>,
    ssh: Option<i128>,
    sealed: Option<i128>,
    r: Reloads,
)
    requires
        call_ensures(Watcher::tick, (w, config, ssh, sealed), r),
    ensures
        !r.config <==> old(w).config == config,
        old(w).ssh is None ==> !r.ssh && final(w).ssh is None,
        old(w).sealed is None ==> !r.sealed && final(w).sealed is None,
        old(w).ssh matches Some(t) ==> (r.ssh <==> t != ssh) && final(w).ssh == Some(ssh),
        old(w).sealed matches Some(t) ==> (r.sealed <==> t != sealed) && final(w).sealed == Some(
            sealed,
        ),
        final(w).config == config,
{
}

} // verus!
