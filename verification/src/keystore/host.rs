//! Which store a host uses, where its file is, and how presence is proved there.
use crate::keystore;
use crate::keystore::{KeystoreError, KeystoreErrorView};
use crate::path;
use crate::text;
use vstd::prelude::*;
use vstd::string::*;

verus! {

/// The residual risk of the file store, in one line.
pub fn file_keystore_residual() -> (r: &'static str)
    ensures
        r@ == FILE_RESIDUAL@,
{
    FILE_RESIDUAL
}

/// The residual risk of the file store, in one line.
pub const FILE_RESIDUAL: &'static str =
    "no standalone decryption key at rest, but a reader gets the daemon identity and the inert Mac share together, so guard the file";

/// What the notice of the memory store says.
pub const MEMORY_BODY: &'static str =
    "Blobs held in plaintext RAM for this process only.\nNothing survives a restart, so the pairing is re-created each run.\nIntended for tests and headless dev, not a persistent install.\n";

/// What the notice of the keychain store says.
pub const KEYCHAIN_BODY: &'static str =
    "Blobs held in the login keychain instead of the default on-disk store.\nA pairing made here is invisible to a daemon running with the default\nstore, and vice versa: keep this set for every sigil process or unset\nit everywhere.\n";

/// The notice that a store other than the default is active.
pub open spec fn override_text(mode: Seq<char>) -> Seq<char> {
    "\nsigil keystore: SIGIL_KEYSTORE="@ + mode + " is active.\n"@ + (if mode == "memory"@ {
        MEMORY_BODY@
    } else {
        KEYCHAIN_BODY@
    })
}

/// The notice that a store other than the default is active.
pub fn override_keystore_notice(mode: &str) -> (r: String)
    ensures
        r@ == override_text(mode@),
{
    let mut s = String::new();
    s.append("\nsigil keystore: SIGIL_KEYSTORE=");
    s.append(mode);
    s.append(" is active.\n");
    if text::same(mode, "memory") {
        s.append(MEMORY_BODY);
    } else {
        s.append(KEYCHAIN_BODY);
    }
    assert(s@ =~= override_text(mode@));
    s
}

/// Notices are said once per process: the first is printed, the rest are dropped.
pub struct Notices {
    pub said: bool,
}

impl Notices {
    /// Nothing said yet.
    pub fn new() -> (r: Notices)
        ensures
            !r.said,
    {
        Notices { said: false }
    }

    /// Whether a notice is to be printed now.
    pub fn note_once(&mut self) -> (r: bool)
        ensures
            r == !old(self).said,
            final(self).said,
    {
        let first = !self.said;
        self.said = true;
        first
    }
}

/// The plain values of a byte string that may be absent.
pub open spec fn maybe_bytes(b: Option<&[u8]>) -> Option<Seq<u8>> {
    match b {
        Some(b) => Some(b@),
        None => None,
    }
}

/// The directory that everything lives in: the one that is set, else `.sigil`
/// under the home directory, else the working directory.
pub open spec fn home_dir(set: Option<Seq<u8>>, home: Option<Seq<u8>>) -> Seq<u8> {
    match (set, home) {
        (Some(s), _) => s,
        (None, Some(h)) => path::under(h, ".sigil".spec_bytes()),
        (None, None) => ".".spec_bytes(),
    }
}

/// `$SIGIL_HOME`, else `~/.sigil`, else the working directory.
pub fn sigil_home(set: Option<&[u8]>, home: Option<&[u8]>) -> (r: Vec<u8>)
    ensures
        r@ == home_dir(maybe_bytes(set), maybe_bytes(home)),
{
    match set {
        Some(s) => crate::bytes::copy(s),
        None => match home {
            Some(h) => path::join(h, ".sigil"),
            None => crate::bytes::copy(".".as_bytes()),
        },
    }
}

/// The default store's file.
pub fn file_keystore_path(set: Option<&[u8]>, home: Option<&[u8]>) -> (r: Vec<u8>)
    ensures
        r@ == path::under(
            home_dir(maybe_bytes(set), maybe_bytes(home)),
            "keystore.json".spec_bytes(),
        ),
{
    let dir = sigil_home(set, home);
    path::join(dir.as_slice(), "keystore.json")
}

/// The name that the store's file had before it was the default.
pub fn legacy_file_keystore_path(set: Option<&[u8]>, home: Option<&[u8]>) -> (r: Vec<u8>)
    ensures
        r@ == path::under(
            home_dir(maybe_bytes(set), maybe_bytes(home)),
            "dev-keystore.json".spec_bytes(),
        ),
{
    let dir = sigil_home(set, home);
    path::join(dir.as_slice(), "dev-keystore.json")
}

/// Whether a file under the old name is to be moved to the new one: only where
/// there is one to move, and never over an existing file.
pub fn migration_due(from_exists: bool, to_exists: bool) -> (r: bool)
    ensures
        r == (from_exists && !to_exists),
{
    from_exists && !to_exists
}

/// What is said of a move from the old name to the new one.
pub open spec fn migration_text(from: Seq<u8>, to: Seq<u8>, moved: Result<(), Seq<char>>) -> Seq<
    char,
> {
    match moved {
        Ok(_) => "sigil keystore: moved "@ + path::utf8_lossy(from) + " to "@ + path::utf8_lossy(to)
            + " (the on-disk store is now the default; your pairing is unchanged)"@,
        Err(e) => "sigil keystore: could not move "@ + path::utf8_lossy(from) + " to "@
            + path::utf8_lossy(to) + " ("@ + e + "); the daemon will look at "@ + path::utf8_lossy(
            to,
        ) + " and may not find your pairing. Move the file by hand."@,
    }
}

/// What is said of a move, given how it went. A failed move is no failure of the
/// process: the new name is opened either way.
pub fn migration_notice(from: &[u8], to: &[u8], moved: Result<(), String>) -> (r: String)
    ensures
        r@ == migration_text(
            from@,
            to@,
            match moved {
                Ok(_) => Ok(()),
                Err(e) => Err(e@),
            },
        ),
{
    let a = path::lossy(from);
    let b = path::lossy(to);
    let mut s = String::new();
    match moved {
        Ok(_) => {
            s.append("sigil keystore: moved ");
            s.append(a.as_str());
            s.append(" to ");
            s.append(b.as_str());
            s.append(" (the on-disk store is now the default; your pairing is unchanged)");
        },
        Err(e) => {
            s.append("sigil keystore: could not move ");
            s.append(a.as_str());
            s.append(" to ");
            s.append(b.as_str());
            s.append(" (");
            s.append(e.as_str());
            s.append("); the daemon will look at ");
            s.append(b.as_str());
            s.append(" and may not find your pairing. Move the file by hand.");
        },
    }
    assert(s@ =~= migration_text(
        from@,
        to@,
        match moved {
            Ok(_) => Ok(()),
            Err(e) => Err(e@),
        },
    ));
    s
}

/// The stores to choose from.
#[derive(Debug, Clone, Copy, PartialEq, Eq, Structural)]
pub enum StoreKind {
    File,
    Memory,
    Keychain,
}

/// A store, and what is to be said about how it was chosen, in order.
pub struct HostChoice {
    pub store: StoreKind,
    pub notices: Vec<String>,
}

/// Said where the old spelling of the variable is used.
pub const DEPRECATED: &'static str =
    "sigil keystore: SIGIL_DEV_KEYSTORE is deprecated; use SIGIL_KEYSTORE (file|memory|keychain). The on-disk store is now the default, so for `file` you can simply unset it.";

/// What the environment asks for: the new spelling where it is set and not
/// empty, else the old one likewise. The flag tells that it was the old one.
pub open spec fn asked(new: Option<Seq<char>>, old_name: Option<Seq<char>>) -> (
    Option<Seq<char>>,
    bool,
) {
    if new is Some && new->0.len() > 0 {
        (new, false)
    } else if old_name is Some && old_name->0.len() > 0 {
        (old_name, true)
    } else {
        (None, false)
    }
}

/// The store that a mode names. Whatever is not known lands on the default.
pub open spec fn store_for(mode: Option<Seq<char>>, macos: bool) -> StoreKind {
    if mode == Some("memory"@) {
        StoreKind::Memory
    } else if macos && mode == Some("keychain"@) {
        StoreKind::Keychain
    } else {
        StoreKind::File
    }
}

/// The notice for a mode that names no store of this build.
pub open spec fn unknown_text(mode: Seq<char>) -> Seq<char> {
    "\nsigil keystore: SIGIL_KEYSTORE="@ + mode
        + " is not a store this build knows (file|memory|keychain).\nUsing the default on-disk store. If you meant a different one, fix the spelling: a pairing made under another store is invisible from here, and that reads like a missing pairing.\n"@
}

/// What is said of a choice: that the old spelling was used, then what deviates
/// from the default or could not be understood. The default is silent.
pub open spec fn choice_notices(
    new: Option<Seq<char>>,
    old_name: Option<Seq<char>>,
    macos: bool,
) -> Seq<Seq<char>> {
    let (mode, deprecated) = asked(new, old_name);
    let first = if deprecated {
        seq![DEPRECATED@]
    } else {
        seq![]
    };
    match store_for(mode, macos) {
        StoreKind::Memory => first.push(override_text("memory"@)),
        StoreKind::Keychain => first.push(override_text("keychain"@)),
        StoreKind::File => if mode is Some && mode->0 != "file"@ {
            first.push(unknown_text(mode->0))
        } else {
            first
        },
    }
}

/// The plain values of a text that may be absent.
pub open spec fn maybe_str(s: Option<&str>) -> Option<Seq<char>> {
    match s {
        Some(s) => Some(s@),
        None => None,
    }
}

fn unless_empty(s: Option<&str>) -> (r: Option<&str>)
    ensures
        maybe_str(r) == (if s is Some && s->0@.len() > 0 {
            Some(s->0@)
        } else {
            None
        }),
{
    match s {
        Some(v) => {
            if text::same(v, "") {
                proof {
                    reveal_strlit("");
                }
                None
            } else {
                proof {
                    reveal_strlit("");
                    if v@.len() == 0 {
                        assert(v@ =~= ""@);
                    }
                }
                Some(v)
            }
        },
        None => None,
    }
}

/// Choose the store for this host from the two environment variables. The daemon
/// and the command line must agree, so the default needs no environment at all,
/// and a mode that is not understood lands on the default and says so.
pub fn for_host(new: Option<&str>, old_name: Option<&str>, macos: bool) -> (r: HostChoice)
    ensures
        r.store == store_for(asked(maybe_str(new), maybe_str(old_name)).0, macos),
        text::texts(r.notices@) == choice_notices(maybe_str(new), maybe_str(old_name), macos),
{
    let mut notices: Vec<String> = Vec::new();
    let mode = match unless_empty(new) {
        Some(v) => Some(v),
        None => match unless_empty(old_name) {
            Some(v) => {
                notices.push(DEPRECATED.to_owned());
                Some(v)
            },
            None => None,
        },
    };
    let ghost first = text::texts(notices@);
    proof {
        let (m, deprecated) = asked(maybe_str(new), maybe_str(old_name));
        assert(maybe_str(mode) == m);
        assert(first =~= if deprecated {
            seq![DEPRECATED@]
        } else {
            seq![]
        });
    }
    let store = match mode {
        None => StoreKind::File,
        Some(m) => {
            if text::same(m, "memory") {
                notices.push(override_keystore_notice("memory"));
                assert(text::texts(notices@) =~= first.push(override_text("memory"@)));
                StoreKind::Memory
            } else if macos && text::same(m, "keychain") {
                notices.push(override_keystore_notice("keychain"));
                assert(text::texts(notices@) =~= first.push(override_text("keychain"@)));
                StoreKind::Keychain
            } else {
                if !text::same(m, "file") {
                    let mut s = String::new();
                    s.append("\nsigil keystore: SIGIL_KEYSTORE=");
                    s.append(m);
                    s.append(
                        " is not a store this build knows (file|memory|keychain).\nUsing the default on-disk store. If you meant a different one, fix the spelling: a pairing made under another store is invisible from here, and that reads like a missing pairing.\n",
                    );
                    assert(s@ =~= unknown_text(m@));
                    notices.push(s);
                    assert(text::texts(notices@) =~= first.push(unknown_text(m@)));
                }
                StoreKind::File
            }
        },
    };
    HostChoice { store, notices }
}

/// With no environment at all the store is the file, and nothing is said; a value
/// that names no store gives the file too, and says so.
pub proof fn the_default_needs_no_environment(mode: Seq<char>, macos: bool)
    requires
        mode.len() > 0,
    ensures
        store_for(asked(None, None).0, macos) == StoreKind::File,
        choice_notices(None, None, macos) == Seq::<Seq<char>>::empty(),
        store_for(asked(Some(Seq::empty()), None).0, macos) == StoreKind::File,
        mode != "memory"@ && mode != "keychain"@ ==> store_for(
            asked(Some(mode), None).0,
            macos,
        ) == StoreKind::File,
        mode != "memory"@ && mode != "keychain"@ && mode != "file"@ ==> choice_notices(
            Some(mode),
            None,
            macos,
        ) == seq![unknown_text(mode)],
{
    assert(choice_notices(None, None, macos) =~= Seq::<Seq<char>>::empty());
    if mode != "memory"@ && mode != "keychain"@ && mode != "file"@ {
        assert(choice_notices(Some(mode), None, macos) =~= seq![unknown_text(mode)]);
    }
}

/// The new spelling wins over the old one, and the old one alone chooses the same
/// store as the new one would.
pub proof fn either_spelling_chooses_the_same_store(
    mode: Seq<char>,
    other: Option<Seq<char>>,
    macos: bool,
)
    requires
        mode.len() > 0,
    ensures
        store_for(asked(Some(mode), other).0, macos) == store_for(Some(mode), macos),
        store_for(asked(None, Some(mode)).0, macos) == store_for(Some(mode), macos),
{
}

/// How to prove that a human is present, given the active store.
#[derive(Debug, Clone, Copy, PartialEq, Eq, Structural)]
pub enum PresencePlan {
    /// Ask the store itself.
    AskStore,
    /// Ask the host: the store cannot, but the host can.
    AskHost,
    /// There is nothing to ask.
    Nothing,
}

/// How to prove presence for a store of this backend on this host.
pub fn presence_plan(backend: &str, is_biometric: bool, macos: bool) -> (r: PresencePlan)
    ensures
        r == (if is_biometric {
            PresencePlan::AskStore
        } else if backend@ == "file"@ && macos {
            PresencePlan::AskHost
        } else {
            PresencePlan::Nothing
        }),
{
    if is_biometric {
        return PresencePlan::AskStore;
    }
    if text::same(backend, "file") && macos {
        return PresencePlan::AskHost;
    }
    PresencePlan::Nothing
}

/// What the code of a presence prompt means: one is present, zero is declined,
/// and codes from -1000 down carry the error of the biometric framework.
pub open spec fn presence_outcome(code: int) -> Result<(), KeystoreErrorView> {
    if code == 1 {
        Ok(())
    } else if code == 0 {
        Err(KeystoreErrorView::Declined)
    } else if code <= -1000 {
        Err(
            KeystoreErrorView::Backend(
                "biometrics unavailable (LAError "@ + text::signed_decimal(code + 1000) + ")"@,
            ),
        )
    } else {
        Err(
            KeystoreErrorView::Backend(
                "presence check failed (code "@ + text::signed_decimal(code) + ")"@,
            ),
        )
    }
}

/// A presence result as plain values.
pub open spec fn presence_view(r: Result<(), KeystoreError>) -> Result<(), KeystoreErrorView> {
    match r {
        Ok(_) => Ok(()),
        Err(e) => Err(e@),
    }
}

/// What the code of a presence prompt means.
pub fn judge_presence(code: i32) -> (r: Result<(), KeystoreError>)
    ensures
        presence_view(r) == presence_outcome(code as int),
{
    if code == 1 {
        Ok(())
    } else if code == 0 {
        Err(KeystoreError::Declined)
    } else {
        let mut s = String::new();
        if code <= -1000 {
            let n: i32 = code + 1000;
            let digits = text::signed_decimal_text(n);
            s.append("biometrics unavailable (LAError ");
            s.append(digits.as_str());
        } else {
            let digits = text::signed_decimal_text(code);
            s.append("presence check failed (code ");
            s.append(digits.as_str());
        }
        s.append(")");
        let r = Err(KeystoreError::Backend(s));
        assert(presence_view(r) =~= presence_outcome(code as int));
        r
    }
}

/// Ask the host for a live human presence. `code` is what its prompt returned, or
/// `None` where the host has no prompt.
pub fn verify_host_presence(code: Option<i32>) -> (r: Result<(), KeystoreError>)
    ensures
        presence_view(r) == match code {
            Some(c) => presence_outcome(c as int),
            None => Err(KeystoreErrorView::Backend("this host has no presence check"@)),
        },
{
    match code {
        Some(c) => judge_presence(c),
        None => Err(KeystoreError::Backend("this host has no presence check".to_owned())),
    }
}

/// A human is taken for present only on the one code that says so.
pub proof fn presence_fails_closed(code: int)
    ensures
        presence_outcome(code) is Ok <==> code == 1,
{
}

/// Whether to look for a pairing left in the login keychain: only where the
/// active store is the file, on a host with a keychain, and holds no identity.
pub fn asks_keychain(macos: bool, backend: &str, has_identity: bool) -> (r: bool)
    ensures
        r == (macos && backend@ == "file"@ && !has_identity),
{
    macos && text::same(backend, "file") && !has_identity
}

/// Said of a pairing that was left in the login keychain.
pub const STRANDED: &'static str =
    "sigil keystore: a daemon identity from an older build is still in the login keychain, and the default on-disk store is empty. Nothing was moved automatically. To keep using that pairing, run sigil with SIGIL_KEYSTORE=keychain set everywhere; to start fresh on the default store, run: sigil pair";

/// One line to log where a pairing is stranded in the login keychain: the active
/// file store has no identity, and the keychain has one.
pub fn legacy_keychain_notice(
    macos: bool,
    backend: &str,
    has_identity: bool,
    keychain_has_identity: bool,
) -> (r: Option<&'static str>)
    ensures
        match r {
            Some(s) => macos && backend@ == "file"@ && !has_identity && keychain_has_identity && s@
                == STRANDED@,
            None => !(macos && backend@ == "file"@ && !has_identity && keychain_has_identity),
        },
{
    if asks_keychain(macos, backend, has_identity) && keychain_has_identity {
        Some(STRANDED)
    } else {
        None
    }
}

/// Each store is chosen by its own name, and the login keychain only on a host that
/// has one; whatever else is asked for lands on the file.
pub proof fn a_store_is_chosen_by_its_name(mode: Option<Seq<char>>, macos: bool)
    ensures
        store_for(mode, macos) == StoreKind::Memory <==> mode == Some("memory"@),
        store_for(mode, macos) == StoreKind::Keychain <==> macos && mode == Some("keychain"@),
        store_for(mode, macos) == StoreKind::File <==> mode != Some("memory"@) && !(macos && mode
            == Some("keychain"@)),
{
    reveal_strlit("memory");
    reveal_strlit("keychain");
    assert("memory"@.len() != "keychain"@.len());
}

/// A choice that deviates from the default or cannot be understood is said, with what
/// was asked for; so is the old spelling, first; and nothing else is.
pub proof fn every_deviation_is_said(
    new: Option<Seq<char>>,
    old_name: Option<Seq<char>>,
    macos: bool,
)
    ensures
        ({
            let said = choice_notices(new, old_name, macos);
            let by_new = new is Some && new->0.len() > 0;
            let by_old = !by_new && old_name is Some && old_name->0.len() > 0;
            let mode = if by_new {
                new->0
            } else {
                old_name->0
            };
            &&& said.len() == (if by_old {
                1int
            } else {
                0
            }) + (if (by_new || by_old) && mode != "file"@ {
                1int
            } else {
                0
            })
            &&& by_old ==> said[0] == DEPRECATED@
            &&& (by_new || by_old) && mode != "file"@ ==> text::occurs_in(said.last(), mode)
        }),
{
    broadcast use text::parts_stand_in;

    reveal_strlit("memory");
    reveal_strlit("keychain");
    reveal_strlit("file");
    assert("memory"@.len() != "keychain"@.len());
    assert("memory"@.len() != "file"@.len());
    assert("keychain"@.len() != "file"@.len());
}

/// Everything lives where it was set to, else under the home directory, else in the
/// working directory; what is set wins over the home directory.
pub proof fn a_set_directory_wins(set: Seq<u8>, home: Option<Seq<u8>>, other: Seq<u8>)
    ensures
        home_dir(Some(set), home) == set,
        home_dir(None, Some(other)) == path::under(other, ".sigil".spec_bytes()),
        home_dir(None, None) == ".".spec_bytes(),
{
}

/// A prompt that was declined is told from one that failed, and a failure tells its
/// code: that of the biometric framework where it has one.
pub proof fn a_failed_prompt_tells_its_code(code: int)
    ensures
        presence_outcome(code) == Err::<(), KeystoreErrorView>(KeystoreErrorView::Declined)
            <==> code == 0,
        code != 0 && code != 1 ==> (presence_outcome(code) matches Err(
            KeystoreErrorView::Backend(why),
        ) && text::occurs_in(
            why,
            text::signed_decimal(
                if code <= -1000 {
                    code + 1000
                } else {
                    code
                },
            ),
        )),
{
    broadcast use text::parts_stand_in;

}

/// What is said of a move names both files, and the reason where it failed.
pub proof fn a_move_names_both_files(from: Seq<u8>, to: Seq<u8>, e: Seq<char>)
    ensures
        text::occurs_in(migration_text(from, to, Ok(())), path::utf8_lossy(from)),
        text::occurs_in(migration_text(from, to, Ok(())), path::utf8_lossy(to)),
        text::occurs_in(migration_text(from, to, Err(e)), path::utf8_lossy(from)),
        text::occurs_in(migration_text(from, to, Err(e)), path::utf8_lossy(to)),
        text::occurs_in(migration_text(from, to, Err(e)), e),
{
    broadcast use text::parts_stand_in;

}

/// A human is asked for where there is something to ask: the store where it has a
/// biometric check, else the host for a file store where it has one, and else nobody.
pub proof fn presence_is_asked_where_it_can_be(
    backend: &str,
    is_biometric: bool,
    macos: bool,
    r: PresencePlan,
)
    requires
        call_ensures(presence_plan, (backend, is_biometric, macos), r),
    ensures
        r == PresencePlan::AskStore <==> is_biometric,
        r == PresencePlan::AskHost <==> !is_biometric && macos && backend@ == "file"@,
        !macos && !is_biometric ==> r == PresencePlan::Nothing,
{
}

} // verus!
