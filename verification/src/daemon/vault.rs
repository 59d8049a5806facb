//! The wrapped keystore as the daemon holds it: what it was at startup, and
//! whether the app has opened it.
use crate::bytes;
use crate::daemon::reply;
use crate::daemon::reply::{control_reply, control_with, Reply, ReplyView};
use crate::daemon::unwrap::UnwrapRequests;
use crate::keystore;
use crate::keystore::{KeystoreErrorView, RamKeystore};
use crate::keystore_seal;
use crate::keystore_seal::{
    digest, digests_equal, AdoptionMarker, FileView, KeystoreFile, MarkerView, SealError,
    SealErrorView, SealState, SealView,
};
use crate::secrets::Token;
use crate::text;
use vstd::prelude::*;
use vstd::string::*;

verus! {

/// What the keystore file was at startup, and whether the app has handed over
/// its material.
pub struct Vault {
    pub seal: SealState,
    pub provisioned: bool,
}

/// A vault as plain values.
#[verifier::ext_equal]
pub struct VaultView {
    pub seal: SealView,
    pub provisioned: bool,
}

impl View for Vault {
    type V = VaultView;

    open spec fn view(&self) -> VaultView {
        VaultView { seal: self.seal@, provisioned: self.provisioned }
    }
}

/// What a keystore file means at startup. One that cannot be read or contradicts
/// itself is a downgrade on a machine that has served a wrapped one.
pub open spec fn startup_seal(
    file: Result<FileView, SealErrorView>,
    marker: Option<MarkerView>,
) -> SealView {
    match file {
        Ok(f) => keystore_seal::seal_of(f, marker),
        Err(_) => if marker is Some {
            SealView::Downgraded
        } else {
            SealView::Plain
        },
    }
}

/// The plain values of a classified file.
pub open spec fn file_view(file: Result<KeystoreFile, SealError>) -> Result<
    FileView,
    SealErrorView,
> {
    match file {
        Ok(f) => Ok(f@),
        Err(e) => Err(e@),
    }
}

/// What the keystore file means, read once at startup, and what to log of it.
pub fn read_seal_state(
    file: Result<KeystoreFile, SealError>,
    marker: Option<&AdoptionMarker>,
) -> (r: (SealState, Option<String>))
    ensures
        r.0@ == startup_seal(file_view(file), keystore_seal::maybe_marker(marker)),
        text::maybe_text(r.1) == match file_view(file) {
            Ok(_) => None,
            Err(e) => Some("sigil daemon: keystore file is unreadable: "@ + e.text()),
        },
{
    match file {
        Ok(f) => (SealState::resolve(&f, marker), None),
        Err(e) => {
            let mut s = String::new();
            let why = e.message();
            s.append("sigil daemon: keystore file is unreadable: ");
            s.append(why.as_str());
            assert(s@ =~= "sigil daemon: keystore file is unreadable: "@ + e@.text());
            if marker.is_some() {
                (SealState::Downgraded, Some(s))
            } else {
                (SealState::Plain, Some(s))
            }
        },
    }
}

/// An unreadable file never lifts the refusal on a machine that has adopted.
pub proof fn an_unreadable_file_refuses_where_adopted(
    e: SealErrorView,
    marker: MarkerView,
    provisioned: bool,
)
    ensures
        startup_seal(Err(e), Some(marker)).blocks(provisioned),
{
}

/// A refusal: the line of the answer, and what is logged of it.
#[verifier::ext_equal]
pub struct RefusalView {
    pub line: Seq<char>,
    pub log: Option<Seq<char>>,
}

/// Why the app is not asked for material at all: the caller is not the app, the
/// store is not wrapped, or it was opened before.
pub open spec fn provision_bar(v: VaultView, app: Result<(), Seq<char>>) -> Option<RefusalView> {
    if app is Err {
        Some(
            RefusalView {
                line: "refused: this verb is only callable by the signed Sigil app"@,
                log: Some("sigil daemon: keystore provision REFUSED; "@ + app->Err_0),
            },
        )
    } else if !(v.seal is Sealed) {
        Some(
            RefusalView {
                line:
                    "refused: this daemon's keystore is not sealed, so there is nothing to open"@,
                log: None,
            },
        )
    } else if v.provisioned {
        Some(
            RefusalView {
                line: "refused: this daemon is already provisioned"@,
                log: Some(ALREADY_PROVISIONED@),
            },
        )
    } else {
        None
    }
}

/// Logged where something tries to replace live material.
pub const ALREADY_PROVISIONED: &'static str =
    "sigil daemon: keystore provision REFUSED; already provisioned this lifetime. Something tried to replace live keystore material.";

/// Logged where material is not what the file commits to.
pub const WRONG_MATERIAL: &'static str =
    "sigil daemon: keystore provision REFUSED; the material does not match what the keystore file commits to. Nothing was loaded.";

/// Why material is not looked into: it is barred, it could not be read, or it does
/// not match the digest that was read at startup.
pub open spec fn material_bar(
    v: VaultView,
    app: Result<(), Seq<char>>,
    material: Result<Seq<u8>, Seq<char>>,
) -> Option<RefusalView> {
    match provision_bar(v, app) {
        Some(bar) => Some(bar),
        None => match material {
            Err(e) => Some(
                RefusalView {
                    line: "refused: the material could not be read"@,
                    log: Some("sigil daemon: keystore provision failed to read material: "@ + e),
                },
            ),
            Ok(m) => if bytes::blake2b256_of(keystore_seal::digest_record(v.seal->se_pub, m))
                != v.seal->expected {
                Some(
                    RefusalView {
                        line: "refused: the material does not match this keystore"@,
                        log: Some(WRONG_MATERIAL@),
                    },
                )
            } else {
                None
            },
        },
    }
}

/// What an attempt to open the store comes to: what the material holds, or the
/// refusal. The caller is looked at first, then the material as a whole, and only
/// what matches is looked into.
pub open spec fn provisioning(
    v: VaultView,
    app: Result<(), Seq<char>>,
    material: Result<Seq<u8>, Seq<char>>,
    parsed: Result<Seq<(String, String)>, Seq<char>>,
) -> Result<Map<Seq<char>, Seq<u8>>, RefusalView> {
    match material_bar(v, app, material) {
        Some(bar) => Err(bar),
        None => match opened_material(parsed) {
            Ok(blobs) => Ok(blobs),
            Err(e) => Err(
                RefusalView {
                    line: "refused: the material is not a keystore"@,
                    log: Some(
                        "sigil daemon: keystore provision REFUSED; material is unusable: "@
                            + e.text(),
                    ),
                },
            ),
        },
    }
}

/// The key that an attempt makes this machine record as adopted, with the time of
/// it: the key of the store on every success, and none otherwise.
pub open spec fn adoption(
    v: VaultView,
    outcome: Result<Map<Seq<char>, Seq<u8>>, RefusalView>,
) -> Option<Seq<u8>> {
    match outcome {
        Ok(_) => Some(v.seal->se_pub),
        Err(_) => None,
    }
}

/// What material holds, by what its JSON parses to.
pub open spec fn opened_material(parsed: Result<Seq<(String, String)>, Seq<char>>) -> Result<
    Map<Seq<char>, Seq<u8>>,
    KeystoreErrorView,
> {
    match parsed {
        Err(e) => Err(KeystoreErrorView::Backend(e)),
        Ok(entries) => match keystore::opened(entries) {
            Ok(m) => Ok(m),
            Err(e) => Err(KeystoreErrorView::Backend(e)),
        },
    }
}

/// A refusal.
pub struct Refusal {
    pub reply: Reply,
    pub log: Option<String>,
}

impl Refusal {
    /// Whether this is the refusal with these words.
    pub open spec fn says(&self, v: RefusalView) -> bool {
        self.reply@ == reply::said(false, v.line) && text::maybe_text(self.log) == v.log
    }
}

fn refuse(line: &str, lead: &str, why: &str) -> (r: Refusal)
    ensures
        r.says(RefusalView { line: line@, log: Some(lead@ + why@) }),
{
    let mut s = String::new();
    s.append(lead);
    s.append(why);
    assert(s@ =~= lead@ + why@);
    Refusal { reply: control_reply(false, line), log: Some(s) }
}

/// The plain values of a check.
pub open spec fn check_view(r: Result<(), String>) -> Result<(), Seq<char>> {
    match r {
        Ok(_) => Ok(()),
        Err(e) => Err(e@),
    }
}

/// The plain values of material that may not have been read.
pub open spec fn material_view(m: Result<Token, String>) -> Result<Seq<u8>, Seq<char>> {
    match m {
        Ok(t) => Ok(t@),
        Err(e) => Err(e@),
    }
}

/// The plain values of entries that may not have been parsed.
pub open spec fn entries_view(p: Result<Vec<(String, String)>, String>) -> Result<
    Seq<(String, String)>,
    Seq<char>,
> {
    match p {
        Ok(v) => Ok(v@),
        Err(e) => Err(e@),
    }
}

/// An opened store, the lines that say so, and what is now recorded of this machine.
pub struct Opened {
    pub keystore: RamKeystore,
    /// The key to write into the adoption marker, with the time. Only now is this
    /// machine known to serve a wrapped store, so only now is a later plaintext file
    /// a downgrade.
    pub adopt: Vec<u8>,
    pub reply: Reply,
    pub log: String,
}

impl Vault {
    /// Why the app is not asked for material at all.
    pub fn bars(&self, app: &Result<(), String>) -> (r: Option<Refusal>)
        ensures
            match r {
                Some(bar) => provision_bar(self@, check_view(*app)) is Some && bar.says(
                    provision_bar(self@, check_view(*app))->0,
                ),
                None => provision_bar(self@, check_view(*app)) is None,
            },
    {
        if let Err(e) = app {
            return Some(
                refuse(
                    "refused: this verb is only callable by the signed Sigil app",
                    "sigil daemon: keystore provision REFUSED; ",
                    e.as_str(),
                ),
            );
        }
        match &self.seal {
            SealState::Sealed { .. } => {},
            _ => {
                return Some(
                    Refusal {
                        reply: control_reply(
                            false,
                            "refused: this daemon's keystore is not sealed, so there is nothing to open",
                        ),
                        log: None,
                    },
                );
            },
        }
        if self.provisioned {
            return Some(
                Refusal {
                    reply: control_reply(false, "refused: this daemon is already provisioned"),
                    log: Some(ALREADY_PROVISIONED.to_owned()),
                },
            );
        }
        None
    }

    /// Why material is not looked into. It is asked before the material is parsed,
    /// so that nothing is parsed but what the keystore file commits to.
    pub fn check(&self, app: &Result<(), String>, material: &Result<Token, String>) -> (r: Option<
        Refusal,
    >)
        ensures
            match r {
                Some(no) => material_bar(self@, check_view(*app), material_view(*material)) is Some
                    && no.says(
                    material_bar(self@, check_view(*app), material_view(*material))->0,
                ),
                None => material_bar(self@, check_view(*app), material_view(*material)) is None,
            },
    {
        if let Some(bar) = self.bars(app) {
            return Some(bar);
        }
        let m = match material {
            Err(e) => {
                return Some(
                    refuse(
                        "refused: the material could not be read",
                        "sigil daemon: keystore provision failed to read material: ",
                        e.as_str(),
                    ),
                );
            },
            Ok(m) => m,
        };
        let matched = match &self.seal {
            SealState::Sealed { expected, se_pub } => {
                let got = digest(se_pub.as_slice(), m.as_slice());
                digests_equal(&got, expected)
            },
            _ => false,
        };
        if !matched {
            return Some(
                Refusal {
                    reply: control_reply(
                        false,
                        "refused: the material does not match this keystore",
                    ),
                    log: Some(WRONG_MATERIAL.to_owned()),
                },
            );
        }
        None
    }

    /// Accept the material of a wrapped store from the app. `app` is whether the
    /// caller is the signed app, `material` the bytes it sent, and `parsed` the
    /// entries that their JSON holds. A refused attempt changes nothing, so that
    /// a malformed one cannot bar a good one; an accepted one is the last, and it
    /// alone is recorded as an adoption.
    pub fn provision(
        &mut self,
        app: Result<(), String>,
        material: Result<Token, String>,
        parsed: Result<Vec<(String, String)>, String>,
    ) -> (r: Result<Opened, Refusal>)
        ensures
            final(self)@.seal == old(self)@.seal,
            final(self)@.provisioned == (old(self)@.provisioned || r is Ok),
            ({
                let outcome = provisioning(
                    old(self)@,
                    check_view(app),
                    material_view(material),
                    entries_view(parsed),
                );
                match r {
                    Ok(o) => {
                        &&& outcome == Ok::<Map<Seq<char>, Seq<u8>>, RefusalView>(o.keystore@)
                        &&& adoption(old(self)@, outcome) == Some(o.adopt@)
                        &&& o.reply@ == reply::said(true, "keystore opened"@)
                        &&& o.log@ == "sigil daemon: keystore opened by the Sigil app ("@
                            + text::decimal(o.keystore@.dom().len()) + " blob(s)); serving."@
                    },
                    Err(no) => {
                        &&& outcome matches Err(v) && no.says(v)
                        &&& adoption(old(self)@, outcome) is None
                    },
                }
            }),
    {
        if let Some(no) = self.check(&app, &material) {
            if let Ok(entries) = parsed {
                keystore::wipe_entries(entries);
            }
            return Err(no);
        }
        let adopt = match &self.seal {
            SealState::Sealed { se_pub, .. } => se_pub.clone(),
            _ => Vec::new(),
        };
        match RamKeystore::from_material(parsed) {
            Err(e) => {
                let why = e.message();
                Err(
                    refuse(
                        "refused: the material is not a keystore",
                        "sigil daemon: keystore provision REFUSED; material is unusable: ",
                        why.as_str(),
                    ),
                )
            },
            Ok(ks) => {
                self.provisioned = true;
                let count: usize = ks.len();
                let mut log = String::new();
                log.append("sigil daemon: keystore opened by the Sigil app (");
                text::push_decimal(&mut log, count as u128);
                log.append(" blob(s)); serving.");
                assert(log@ =~= "sigil daemon: keystore opened by the Sigil app ("@
                    + text::decimal(ks@.dom().len()) + " blob(s)); serving."@);
                Ok(
                    Opened {
                        keystore: ks,
                        adopt,
                        reply: control_reply(true, "keystore opened"),
                        log,
                    },
                )
            },
        }
    }
}

/// What is logged of writing the adoption marker: a failure, which stops nothing.
pub fn adoption_line(written: Result<(), String>) -> (r: Option<String>)
    ensures
        text::maybe_text(r) == match check_view(written) {
            Ok(_) => None,
            Err(e) => Some("sigil daemon: could not write the adoption marker: "@ + e),
        },
{
    match written {
        Ok(_) => None,
        Err(e) => {
            let mut s = String::new();
            s.append("sigil daemon: could not write the adoption marker: ");
            s.append(e.as_str());
            assert(s@ =~= "sigil daemon: could not write the adoption marker: "@ + e@);
            Some(s)
        },
    }
}

/// An adoption is recorded on every success and on nothing else, under the key of
/// the store that was opened; and once it is, no plaintext or unreadable file is
/// served on this machine.
pub proof fn every_success_is_recorded_as_an_adoption(
    v: VaultView,
    app: Result<(), Seq<char>>,
    material: Result<Seq<u8>, Seq<char>>,
    parsed: Result<Seq<(String, String)>, Seq<char>>,
    plain: Seq<u8>,
    fault: SealErrorView,
    now: u64,
    provisioned: bool,
)
    ensures
        ({
            let key = adoption(v, provisioning(v, app, material, parsed));
            let marker = MarkerView { se_pub: key->0, adopted_at_ms: now };
            &&& key is Some <==> provisioning(v, app, material, parsed) is Ok
            &&& key is Some ==> v.seal is Sealed && key == Some(v.seal->se_pub)
            &&& startup_seal(Ok(FileView::V1(plain)), Some(marker)).blocks(provisioned)
            &&& startup_seal(Err(fault), Some(marker)).blocks(provisioned)
        }),
{
}

/// Material is accepted only from the app, only into a wrapped store, only once,
/// and only where it is what the keystore file commits to.
pub proof fn only_the_committed_material_opens_it(
    v: VaultView,
    app: Result<(), Seq<char>>,
    material: Result<Seq<u8>, Seq<char>>,
    parsed: Result<Seq<(String, String)>, Seq<char>>,
)
    requires
        provisioning(v, app, material, parsed) is Ok,
    ensures
        app is Ok,
        v.seal is Sealed,
        !v.provisioned,
        material is Ok,
        bytes::blake2b256_of(keystore_seal::digest_record(v.seal->se_pub, material->Ok_0))
            == v.seal->expected,
{
}

/// A store that is open takes no material again, from whomever it comes.
pub proof fn an_open_store_takes_no_more(
    v: VaultView,
    app: Result<(), Seq<char>>,
    material: Result<Seq<u8>, Seq<char>>,
    parsed: Result<Seq<(String, String)>, Seq<char>>,
)
    requires
        v.provisioned,
    ensures
        provisioning(v, app, material, parsed) is Err,
{
}

/// Why a subscription to the ceremony stream is refused: the stream is for the
/// app alone. `None` lets it go ahead.
pub fn stream_keystore(app: Result<(), String>) -> (r: Option<Refusal>)
    ensures
        match (app, r) {
            (Ok(_), None) => true,
            (Err(e), Some(no)) => no.says(
                RefusalView {
                    line: "refused: this stream is only for the signed Sigil app"@,
                    log: Some("sigil daemon: keystore subscription REFUSED; "@ + e@),
                },
            ),
            _ => false,
        },
{
    match app {
        Ok(_) => None,
        Err(e) => Some(
            refuse(
                "refused: this stream is only for the signed Sigil app",
                "sigil daemon: keystore subscription REFUSED; ",
                e.as_str(),
            ),
        ),
    }
}

/// How long a request to unwrap waits for the app, in seconds.
pub const UNWRAP_WAIT_SECS: u64 = 75;

/// Logged where a request to return the store to plaintext was raised.
pub const DE_ADOPTION_REQUESTED: &'static str =
    "sigil daemon: de-adoption requested; waiting for the Sigil app";

/// A request that was raised for the app: the nonce that it goes under, and the
/// line that says so.
pub struct Raised {
    pub nonce: String,
    pub log: &'static str,
}

/// A request to return the store to plaintext: raised for the app under the nonce
/// that comes back, or refused where there is nothing to unwrap.
pub fn handle_unwrap_request(vault: &Vault, requests: &mut UnwrapRequests) -> (r: Result<
    Raised,
    Reply,
>)
    requires
        old(requests)@.version < u64::MAX,
    ensures
        match r {
            Ok(up) => vault@.seal is Sealed && final(requests)@ == old(requests)@.asked(up.nonce@)
                && up.log@ == DE_ADOPTION_REQUESTED@,
            Err(no) => !(vault@.seal is Sealed) && final(requests)@ == old(requests)@ && no@
                == reply::said(
                false,
                "this keystore is not sealed; there is nothing to unwrap"@,
            ),
        },
{
    match &vault.seal {
        SealState::Sealed { .. } => {
            let nonce = requests.request();
            Ok(Raised { nonce, log: DE_ADOPTION_REQUESTED })
        },
        _ => Err(
            control_reply(false, "this keystore is not sealed; there is nothing to unwrap"),
        ),
    }
}

/// What is answered to a request to unwrap, by how the app answered it.
pub open spec fn unwrap_answer(answer: Option<(bool, Seq<char>)>) -> ReplyView {
    match answer {
        Some((true, _)) => ReplyView::Control {
            ok: true,
            lines: seq![
                "the Sigil app returned the keystore to plaintext"@,
                "restart the daemon to serve from it: sigil up"@,
            ],
        },
        Some((false, why)) => reply::said(
            false,
            "the Sigil app could not unwrap it: "@ + why,
        ),
        None => ReplyView::Control {
            ok: false,
            lines: seq![
                "the Sigil app did not answer; the keystore is still sealed"@,
                "make sure the app is running, then try again"@,
            ],
        },
    }
}

fn two_lines(ok: bool, a: &str, b: &str) -> (r: Reply)
    ensures
        r@ == (ReplyView::Control { ok, lines: seq![a@, b@] }),
{
    let mut lines: Vec<String> = Vec::new();
    lines.push(a.to_owned());
    lines.push(b.to_owned());
    let r = Reply::Control { ok, lines };
    assert(r@ =~= (ReplyView::Control { ok, lines: seq![a@, b@] }));
    r
}

/// What is answered to a request to unwrap, once the app has answered or the time
/// is up. A request that timed out is closed, so that a late answer is refused.
pub fn unwrap_outcome(
    requests: &mut UnwrapRequests,
    nonce: &str,
    answer: Option<(bool, String)>,
) -> (r: Reply)
    requires
        old(requests)@.version < u64::MAX,
    ensures
        r@ == unwrap_answer(
            match answer {
                Some((ok, why)) => Some((ok, why@)),
                None => None,
            },
        ),
        final(requests)@ == (if answer is None {
            old(requests)@.answered(nonce@, false, "timed out"@)
        } else {
            old(requests)@
        }),
{
    match answer {
        Some((true, _)) => two_lines(
            true,
            "the Sigil app returned the keystore to plaintext",
            "restart the daemon to serve from it: sigil up",
        ),
        Some((false, why)) => control_with(
            false,
            "the Sigil app could not unwrap it: ",
            why.as_str(),
        ),
        None => {
            requests.resolve(nonce, false, "timed out");
            two_lines(
                false,
                "the Sigil app did not answer; the keystore is still sealed",
                "make sure the app is running, then try again",
            )
        },
    }
}

/// What a report of an unwrap leads to.
pub enum UnwrapStep {
    /// Answer, and log.
    Answer(Refusal),
    /// Clear the adoption marker: the app has written the plaintext.
    ClearMarker,
}

/// What a report of an unwrap leads to: an answer with its log line, or `None`
/// for clearing the marker.
pub open spec fn unwrap_step(
    outstanding: bool,
    app: Result<(), Seq<char>>,
    nonce: Seq<char>,
    ok: bool,
    reason: Seq<char>,
) -> Option<(ReplyView, Option<Seq<char>>)> {
    if app is Err {
        Some(
            (
                reply::said(
                    false,
                    "refused: this verb is only callable by the signed Sigil app"@,
                ),
                Some("sigil daemon: unwrap report REFUSED; "@ + app->Err_0),
            ),
        )
    } else if !outstanding {
        Some((reply::said(false, "no unwrap request "@ + nonce + " is outstanding"@), None))
    } else if !ok {
        Some(
            (
                reply::said(true, "recorded"@),
                Some("sigil daemon: the app could not unwrap the keystore: "@ + reason),
            ),
        )
    } else {
        None
    }
}

/// The app reports what happened to an unwrap. Only a success that was asked for
/// leads to clearing the marker.
pub fn handle_unwrap_done(
    requests: &mut UnwrapRequests,
    app: Result<(), String>,
    nonce: &str,
    ok: bool,
    reason: &str,
) -> (r: UnwrapStep)
    requires
        old(requests)@.version < u64::MAX,
    ensures
        final(requests)@ == (if app is Ok {
            old(requests)@.answered(nonce@, ok, reason@)
        } else {
            old(requests)@
        }),
        match r {
            UnwrapStep::Answer(a) => unwrap_step(
                old(requests)@.open.contains(nonce@),
                check_view(app),
                nonce@,
                ok,
                reason@,
            ) == Some((a.reply@, text::maybe_text(a.log))),
            UnwrapStep::ClearMarker => unwrap_step(
                old(requests)@.open.contains(nonce@),
                check_view(app),
                nonce@,
                ok,
                reason@,
            ) is None,
        },
{
    if let Err(e) = app {
        return UnwrapStep::Answer(
            refuse(
                "refused: this verb is only callable by the signed Sigil app",
                "sigil daemon: unwrap report REFUSED; ",
                e.as_str(),
            ),
        );
    }
    if !requests.resolve(nonce, ok, reason) {
        let mut s = String::new();
        s.append("no unwrap request ");
        s.append(nonce);
        s.append(" is outstanding");
        assert(s@ =~= "no unwrap request "@ + nonce@ + " is outstanding"@);
        return UnwrapStep::Answer(
            Refusal { reply: reply::control_line(false, s), log: None },
        );
    }
    if !ok {
        let mut s = String::new();
        s.append("sigil daemon: the app could not unwrap the keystore: ");
        s.append(reason);
        assert(s@ =~= "sigil daemon: the app could not unwrap the keystore: "@ + reason@);
        return UnwrapStep::Answer(
            Refusal { reply: control_reply(true, "recorded"), log: Some(s) },
        );
    }
    UnwrapStep::ClearMarker
}

/// Logged where the store is plaintext again.
pub const DE_ADOPTED: &'static str =
    "sigil daemon: keystore de-adopted; it is plaintext again. Restart the daemon to serve from it.";

/// What is answered once the marker was to be cleared, and what is logged.
pub fn unwrap_cleared(cleared: Result<(), String>) -> (r: (Reply, Option<&'static str>))
    ensures
        match cleared {
            Ok(_) => r.0@ == reply::said(true, "de-adopted"@) && (r.1 matches Some(log) && log@
                == DE_ADOPTED@),
            Err(e) => r.0@ == reply::said(false, "could not clear the adoption marker: "@ + e@)
                && r.1 is None,
        },
{
    match cleared {
        Ok(_) => (control_reply(true, "de-adopted"), Some(DE_ADOPTED)),
        Err(e) => (
            control_with(false, "could not clear the adoption marker: ", e.as_str()),
            None,
        ),
    }
}

/// The marker is cleared only on a success that the app reports and that was
/// asked for.
pub proof fn the_marker_is_cleared_only_on_a_reported_success(
    outstanding: bool,
    app: Result<(), Seq<char>>,
    nonce: Seq<char>,
    ok: bool,
    reason: Seq<char>,
)
    ensures
        unwrap_step(outstanding, app, nonce, ok, reason) is None <==> app is Ok && outstanding
            && ok,
{
}

/// Material opens the store exactly where it comes from the app, into a wrapped store
/// that is not open yet, could be read, has the digest that was read at startup under
/// the key of the store, and parses to entries that all decode. A store that opened is
/// open from then on, and a refusal changes nothing.
pub proof fn material_opens_where_it_is_committed_to(
    v: VaultView,
    app: Result<(), Seq<char>>,
    material: Result<Seq<u8>, Seq<char>>,
    parsed: Result<Seq<(String, String)>, Seq<char>>,
)
    ensures
        provisioning(v, app, material, parsed) is Ok <==> {
            &&& app is Ok
            &&& v.seal is Sealed
            &&& !v.provisioned
            &&& material is Ok
            &&& bytes::blake2b256_of(keystore_seal::digest_record(v.seal->se_pub, material->Ok_0))
                == v.seal->expected
            &&& parsed is Ok
            &&& keystore::opened(parsed->Ok_0) is Ok
        },
        (provisioning(v, app, material, parsed) matches Ok(blobs) ==> keystore::opened(
            parsed->Ok_0,
        ) == Ok::<Map<Seq<char>, Seq<u8>>, Seq<char>>(blobs)),
        material_bar(v, app, material) is Some ==> provisioning(v, app, material, parsed) is Err,
        app is Err ==> (provisioning(v, app, material, parsed) matches Err(no) && no.line
            == "refused: this verb is only callable by the signed Sigil app"@),
{
}

/// A request to unwrap is answered as the app answered it: a success only where the
/// app says so, a failure with its reason, and a request that nobody answered says
/// that the store is still sealed.
pub proof fn an_unwrap_is_answered_as_it_went(answer: Option<(bool, Seq<char>)>)
    ensures
        (unwrap_answer(answer) matches ReplyView::Control { ok, .. } && ok) <==> (answer matches Some(
            (true, _),
        )),
        (answer matches Some((false, why)) ==> unwrap_answer(answer) == reply::said(
            false,
            "the Sigil app could not unwrap it: "@ + why,
        )),
        answer is None ==> (unwrap_answer(answer) matches ReplyView::Control { lines, .. }
            && lines.len() == 2 && lines[0]
            == "the Sigil app did not answer; the keystore is still sealed"@),
{
}

/// A refusal to open the store says why: who asked, what could not be read, or what
/// the material is not; and only the app that is signed may ask at all.
pub proof fn a_refused_provision_says_why(
    v: VaultView,
    app: Result<(), Seq<char>>,
    material: Result<Seq<u8>, Seq<char>>,
    why: Seq<char>,
)
    ensures
        app == Err::<(), Seq<char>>(why) ==> (provision_bar(v, app) matches Some(r) && (
        r.log matches Some(line) && text::occurs_in(line, why))),
        provision_bar(v, app) is None <==> app is Ok && v.seal is Sealed && !v.provisioned,
        provision_bar(v, app) is Some ==> material_bar(v, app, material) == provision_bar(v, app),
        provision_bar(v, app) is None && material == Err::<Seq<u8>, Seq<char>>(why) ==> (
        material_bar(v, app, material) matches Some(r) && (r.log matches Some(line)
            && text::occurs_in(line, why))),
{
    broadcast use text::parts_stand_in;

}

/// A report on an unwrap counts only from the signed app and for a request that is
/// open; a failure is recorded with its reason, and a success clears the marker.
pub proof fn an_unwrap_report_counts_where_it_was_asked_for(
    outstanding: bool,
    app: Result<(), Seq<char>>,
    nonce: Seq<char>,
    ok: bool,
    reason: Seq<char>,
)
    ensures
        unwrap_step(outstanding, app, nonce, ok, reason) is None <==> app is Ok && outstanding && ok,
        app matches Err(why) ==> (unwrap_step(outstanding, app, nonce, ok, reason) matches Some(
            (ReplyView::Control { ok: told, .. }, Some(line)),
        ) && !told && text::occurs_in(line, why)),
        app is Ok && !outstanding ==> (unwrap_step(
            outstanding,
            app,
            nonce,
            ok,
            reason,
        ) matches Some((ReplyView::Control { ok: told, lines }, log)) && !told && log is None
            && lines.len() == 1 && text::occurs_in(lines[0], nonce)),
        app is Ok && outstanding && !ok ==> (unwrap_step(
            outstanding,
            app,
            nonce,
            ok,
            reason,
        ) matches Some((ReplyView::Control { ok: told, .. }, Some(line))) && told
            && text::occurs_in(line, reason)),
{
    broadcast use text::parts_stand_in;

}

/// A refusal is told as a failure, in its own words and no others.
pub proof fn a_refusal_is_told_as_a_failure(r: Refusal, v: RefusalView)
    requires
        r.says(v),
    ensures
        r.reply@ matches ReplyView::Control { ok, lines } && !ok && lines.len() == 1 && lines[0]
            == v.line,
        match r.log {
            Some(line) => v.log == Some(line@),
            None => v.log is None,
        },
{
}

/// A store is opened only for the signed app, only where it is wrapped and not open, and
/// only with the material that it is committed to; it is open from then on, and its key
/// is the one to adopt. A refusal leaves it as it was.
pub proof fn a_store_opens_only_as_it_should(
    v: &mut Vault,
    app: Result<(), String>,
    material: Result<Token, String>,
    parsed: Result<Vec<(String, String)>, String>,
    r: Result<Opened, Refusal>,
)
    requires
        call_ensures(Vault::provision, (v, app, material, parsed), r),
    ensures
        r is Ok ==> {
            &&& app is Ok && parsed is Ok
            &&& !old(v)@.provisioned && final(v)@.provisioned
            &&& old(v)@.seal matches SealView::Sealed { expected, se_pub } && (material matches Ok(m)
                && bytes::blake2b256_of(keystore_seal::digest_record(se_pub, m@)) == expected)
                && r->Ok_0.adopt@ == se_pub
        },
        r is Err ==> final(v)@ == old(v)@,
        final(v)@.seal == old(v)@.seal,
        r matches Err(no) ==> (no.reply@ matches ReplyView::Control { ok, .. } && !ok),
{
}

} // verus!
