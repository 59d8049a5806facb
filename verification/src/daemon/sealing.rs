//! Sealing a value into the store on a caller's behalf, step by step.
//!
//! The steps that read, seal and write to disk are done outside; this decides what
//! comes next, what the store to save holds, what is answered, and when the armed
//! records change.
use crate::daemon::reply;
use crate::daemon::reply::{control_reply, control_with, Reply, ReplyView};
use crate::daemon::sealed;
use crate::daemon::sealed::{RecordView, SealedRecord, SealedStore};
use crate::daemon::vault::{Vault, VaultView};
use crate::text;
use vstd::prelude::*;
use vstd::string::*;

verus! {

/// What is to be done next.
#[derive(Debug, Clone, Copy, PartialEq, Eq, Structural)]
pub enum SealStep {
    /// Read the value that the caller sends.
    ReadValue,
    /// Load the store from disk.
    LoadStore { removing: bool },
    /// Save the store without the record.
    SaveRemoved,
    /// Load the pairing.
    LoadPairing,
    /// Load the daemon's own share.
    LoadShare,
    /// Seal the value into a record.
    Seal,
    /// Save the store with the new record.
    SaveSealed,
    /// The request is answered.
    Ended,
}

/// What a step came to.
pub enum SealTold {
    /// The value that was read: whether it is empty.
    Value(Result<bool, String>),
    /// The store as it is on disk.
    Loaded(Result<SealedStore, String>),
    /// The store that was handed out is on disk.
    Saved(Result<(), String>),
    /// The pairing: whether the phone has a share, where a phone is paired.
    Pairing(Result<Option<bool>, String>),
    /// The daemon's own share: whether there is one.
    Share(Result<bool, String>),
    /// The record that the value was sealed into.
    Sealed(Result<SealedRecord, String>),
}

/// What a step came to, as plain values.
#[verifier::ext_equal]
pub enum ToldView {
    Value(Result<bool, Seq<char>>),
    Loaded(Result<Seq<RecordView>, Seq<char>>),
    Saved(Result<(), Seq<char>>),
    Pairing(Result<Option<bool>, Seq<char>>),
    Share(Result<bool, Seq<char>>),
    Sealed(Result<RecordView, Seq<char>>),
}

impl View for SealTold {
    type V = ToldView;

    open spec fn view(&self) -> ToldView {
        match self {
            SealTold::Value(Ok(b)) => ToldView::Value(Ok(*b)),
            SealTold::Value(Err(e)) => ToldView::Value(Err(e@)),
            SealTold::Loaded(Ok(s)) => ToldView::Loaded(Ok(s@)),
            SealTold::Loaded(Err(e)) => ToldView::Loaded(Err(e@)),
            SealTold::Saved(Ok(_)) => ToldView::Saved(Ok(())),
            SealTold::Saved(Err(e)) => ToldView::Saved(Err(e@)),
            SealTold::Pairing(Ok(p)) => ToldView::Pairing(Ok(*p)),
            SealTold::Pairing(Err(e)) => ToldView::Pairing(Err(e@)),
            SealTold::Share(Ok(b)) => ToldView::Share(Ok(*b)),
            SealTold::Share(Err(e)) => ToldView::Share(Err(e@)),
            SealTold::Sealed(Ok(r)) => ToldView::Sealed(Ok(r@)),
            SealTold::Sealed(Err(e)) => ToldView::Sealed(Err(e@)),
        }
    }
}

/// Whether this is what the step asked for.
pub open spec fn fits(step: SealStep, told: ToldView) -> bool {
    match step {
        SealStep::ReadValue => told is Value,
        SealStep::LoadStore { .. } => told is Loaded,
        SealStep::SaveRemoved => told is Saved,
        SealStep::LoadPairing => told is Pairing,
        SealStep::LoadShare => told is Share,
        SealStep::Seal => told is Sealed,
        SealStep::SaveSealed => told is Saved,
        SealStep::Ended => false,
    }
}

/// A request on its way, as plain values.
#[verifier::ext_equal]
pub struct RequestView {
    pub id: Seq<char>,
    pub step: SealStep,
    pub held: Seq<RecordView>,
}

/// What a step leads to: the next step, the store to save, or the answer with its
/// log line; and the records that are armed from then on, where they change.
#[verifier::ext_equal]
pub enum NextView {
    Go(SealStep),
    Save(Seq<RecordView>),
    Answer { reply: ReplyView, log: Option<Seq<char>>, arm: Option<Seq<RecordView>> },
}

/// A failure answers with its reason and changes nothing.
pub open spec fn fails(line: Seq<char>) -> NextView {
    NextView::Answer { reply: reply::said(false, line), log: None, arm: None }
}

/// How a request starts: with reading the value, unless the keystore refuses to
/// serve, which is said without touching anything.
pub open spec fn seal_start(v: VaultView) -> NextView {
    if v.seal.blocks(v.provisioned) {
        fails(v.seal.why(v.provisioned)->0)
    } else {
        NextView::Go(SealStep::ReadValue)
    }
}

/// What a step leads to. An empty value removes the id from the store that was
/// loaded; any other is sealed, and its record filed there. What is armed in the
/// end is the store that was handed out and saved.
pub open spec fn seal_next(q: RequestView, told: ToldView) -> NextView {
    match (q.step, told) {
        (SealStep::ReadValue, ToldView::Value(Ok(empty))) => NextView::Go(
            SealStep::LoadStore { removing: empty },
        ),
        (SealStep::ReadValue, ToldView::Value(Err(e))) => fails(
            "the value could not be read: "@ + e,
        ),
        (SealStep::LoadStore { removing }, ToldView::Loaded(Ok(s))) => if removing {
            NextView::Save(sealed::without(s, q.id))
        } else {
            NextView::Go(SealStep::LoadPairing)
        },
        (SealStep::LoadStore { .. }, ToldView::Loaded(Err(e))) => fails(
            "loading the threshold store: "@ + e,
        ),
        (SealStep::SaveRemoved, ToldView::Saved(Ok(_))) => NextView::Answer {
            reply: reply::said(true, "removed "@ + q.id),
            log: Some(
                "sigil daemon: removed the sealed record for '"@ + q.id + "'; "@ + text::decimal(
                    q.held.len(),
                ) + " armed"@,
            ),
            arm: Some(q.held),
        },
        (SealStep::SaveRemoved, ToldView::Saved(Err(e))) => fails(
            "saving the threshold store: "@ + e,
        ),
        (SealStep::LoadPairing, ToldView::Pairing(Ok(Some(true)))) => NextView::Go(
            SealStep::LoadShare,
        ),
        (SealStep::LoadPairing, ToldView::Pairing(Ok(Some(false)))) => fails(
            "this pairing has no phone Secure-Enclave share; re-pair"@,
        ),
        (SealStep::LoadPairing, ToldView::Pairing(Ok(None))) => fails(
            "no phone is paired; run `sigil pair` first"@,
        ),
        (SealStep::LoadPairing, ToldView::Pairing(Err(e))) => fails("loading the pairing: "@ + e),
        (SealStep::LoadShare, ToldView::Share(Ok(true))) => NextView::Go(SealStep::Seal),
        (SealStep::LoadShare, ToldView::Share(Ok(false))) => fails(
            "no Mac threshold share on this daemon; re-pair"@,
        ),
        (SealStep::LoadShare, ToldView::Share(Err(e))) => fails("loading the Mac share: "@ + e),
        (SealStep::Seal, ToldView::Sealed(Ok(r))) => NextView::Save(
            sealed::with_record(q.held, q.id, r),
        ),
        (SealStep::Seal, ToldView::Sealed(Err(e))) => fails("sealing: "@ + e),
        (SealStep::SaveSealed, ToldView::Saved(Ok(_))) => NextView::Answer {
            reply: reply::said(true, "sealed "@ + q.id),
            log: Some(
                "sigil daemon: sealed '"@ + q.id + "'; "@ + text::decimal(q.held.len())
                    + " sealed secret(s) armed"@,
            ),
            arm: Some(q.held),
        },
        (SealStep::SaveSealed, ToldView::Saved(Err(e))) => fails(
            "saving the threshold store: "@ + e,
        ),
        _ => NextView::Go(SealStep::Ended),
    }
}

/// Where a step leaves the request: at the step that was named, holding the store
/// that was loaded or handed out.
pub open spec fn seal_after(q: RequestView, told: ToldView) -> RequestView {
    RequestView {
        id: q.id,
        step: match seal_next(q, told) {
            NextView::Go(step) => step,
            NextView::Save(_) => if q.step is Seal {
                SealStep::SaveSealed
            } else {
                SealStep::SaveRemoved
            },
            NextView::Answer { .. } => SealStep::Ended,
        },
        held: match (seal_next(q, told), told) {
            (NextView::Save(s), _) => s,
            (_, ToldView::Loaded(Ok(s))) => s,
            _ => q.held,
        },
    }
}

/// What is to be done next, the store to save, or the answer.
pub enum SealNext {
    Go(SealStep),
    Save(SealedStore),
    Answer { reply: Reply, log: Option<String> },
}

/// Whether a next move and the armed records are what `view` says, where `before`
/// was armed.
pub open spec fn follows(
    next: SealNext,
    armed: Seq<RecordView>,
    before: Seq<RecordView>,
    view: NextView,
) -> bool {
    match (next, view) {
        (SealNext::Go(a), NextView::Go(b)) => a == b && armed == before,
        (SealNext::Save(a), NextView::Save(b)) => a@ == b && armed == before,
        (SealNext::Answer { reply, log }, NextView::Answer { reply: r, log: l, arm }) => {
            &&& reply@ == r
            &&& text::maybe_text(log) == l
            &&& armed == (match arm {
                Some(s) => s,
                None => before,
            })
        },
        _ => false,
    }
}

/// A request to seal a value, or to remove one.
pub struct SealRequest {
    pub id: String,
    pub step: SealStep,
    /// The store as it was loaded, and then as it was handed out to be saved.
    pub held: SealedStore,
}

impl View for SealRequest {
    type V = RequestView;

    open spec fn view(&self) -> RequestView {
        RequestView { id: self.id@, step: self.step, held: self.held@ }
    }
}

fn fail(line: &str) -> (r: SealNext)
    ensures
        r matches SealNext::Answer { reply, log } && reply@ == reply::said(false, line@) && log
            is None,
{
    SealNext::Answer { reply: control_reply(false, line), log: None }
}

fn fail_with(lead: &str, why: &str) -> (r: SealNext)
    ensures
        r matches SealNext::Answer { reply, log } && reply@ == reply::said(false, lead@ + why@)
            && log is None,
{
    SealNext::Answer { reply: control_with(false, lead, why), log: None }
}

impl SealRequest {
    /// Start a request under `id`.
    pub fn start(vault: &Vault, id: String) -> (r: (SealRequest, SealNext))
        ensures
            follows(r.1, Seq::empty(), Seq::empty(), seal_start(vault@)),
            r.0@ == (RequestView {
                id: id@,
                step: match r.1 {
                    SealNext::Go(s) => s,
                    _ => SealStep::Ended,
                },
                held: Seq::empty(),
            }),
    {
        let held = SealedStore::new();
        if vault.seal.blocks_serving(vault.provisioned) {
            if let Some(why) = vault.seal.explain(vault.provisioned) {
                return (SealRequest { id, step: SealStep::Ended, held }, fail(why));
            }
        }
        (
            SealRequest { id, step: SealStep::ReadValue, held },
            SealNext::Go(SealStep::ReadValue),
        )
    }

    /// What a step leads to. The armed records change only once a store is saved,
    /// so that no request sees a record that is not on disk, and a failed save
    /// leaves them as they were.
    pub fn tell(&mut self, armed: &mut SealedStore, told: SealTold) -> (r: SealNext)
        requires
            fits(old(self).step, told@),
        ensures
            final(self)@ == seal_after(old(self)@, told@),
            follows(r, final(armed)@, old(armed)@, seal_next(old(self)@, told@)),
    {
        let saving = match self.step {
            SealStep::Seal => SealStep::SaveSealed,
            _ => SealStep::SaveRemoved,
        };
        let r = self.decide(armed, told);
        self.step = match &r {
            SealNext::Go(s) => *s,
            SealNext::Save(_) => saving,
            SealNext::Answer { .. } => SealStep::Ended,
        };
        r
    }

    fn decide(&mut self, armed: &mut SealedStore, told: SealTold) -> (r: SealNext)
        requires
            fits(old(self).step, told@),
        ensures
            final(self)@ == (RequestView {
                step: old(self).step,
                ..seal_after(old(self)@, told@)
            }),
            follows(r, final(armed)@, old(armed)@, seal_next(old(self)@, told@)),
    {
        match told {
            SealTold::Value(Ok(empty)) => SealNext::Go(SealStep::LoadStore { removing: empty }),
            SealTold::Value(Err(e)) => fail_with("the value could not be read: ", e.as_str()),
            SealTold::Loaded(Ok(s)) => {
                let removing = match self.step {
                    SealStep::LoadStore { removing } => removing,
                    _ => false,
                };
                let mut store = s;
                if !removing {
                    self.held = store;
                    return SealNext::Go(SealStep::LoadPairing);
                }
                store.remove(self.id.as_str());
                let out = store.duplicate();
                self.held = store;
                SealNext::Save(out)
            },
            SealTold::Loaded(Err(e)) => fail_with("loading the threshold store: ", e.as_str()),
            SealTold::Pairing(Ok(Some(true))) => SealNext::Go(SealStep::LoadShare),
            SealTold::Pairing(Ok(Some(false))) => fail(
                "this pairing has no phone Secure-Enclave share; re-pair",
            ),
            SealTold::Pairing(Ok(None)) => fail("no phone is paired; run `sigil pair` first"),
            SealTold::Pairing(Err(e)) => fail_with("loading the pairing: ", e.as_str()),
            SealTold::Share(Ok(true)) => SealNext::Go(SealStep::Seal),
            SealTold::Share(Ok(false)) => fail("no Mac threshold share on this daemon; re-pair"),
            SealTold::Share(Err(e)) => fail_with("loading the Mac share: ", e.as_str()),
            SealTold::Sealed(Ok(record)) => {
                self.held.put(self.id.as_str(), record);
                SealNext::Save(self.held.duplicate())
            },
            SealTold::Sealed(Err(e)) => fail_with("sealing: ", e.as_str()),
            SealTold::Saved(Err(e)) => fail_with("saving the threshold store: ", e.as_str()),
            SealTold::Saved(Ok(_)) => {
                *armed = self.held.duplicate();
                let n: usize = armed.secrets.len();
                let mut log = String::new();
                let id = self.id.as_str();
                match self.step {
                    SealStep::SaveRemoved => {
                        log.append("sigil daemon: removed the sealed record for '");
                        log.append(id);
                        log.append("'; ");
                        text::push_decimal(&mut log, n as u128);
                        log.append(" armed");
                        assert(log@ =~= "sigil daemon: removed the sealed record for '"@ + self.id@
                            + "'; "@ + text::decimal(armed@.len()) + " armed"@);
                        SealNext::Answer { reply: control_with(true, "removed ", id), log: Some(log) }
                    },
                    _ => {
                        log.append("sigil daemon: sealed '");
                        log.append(id);
                        log.append("'; ");
                        text::push_decimal(&mut log, n as u128);
                        log.append(" sealed secret(s) armed");
                        assert(log@ =~= "sigil daemon: sealed '"@ + self.id@ + "'; "@
                            + text::decimal(armed@.len()) + " sealed secret(s) armed"@);
                        SealNext::Answer { reply: control_with(true, "sealed ", id), log: Some(log) }
                    },
                }
            },
        }
    }
}

/// The armed records change exactly where a save succeeded, and then to the store
/// that was handed out; every answer that changes nothing is a failure.
pub proof fn only_a_saved_store_is_armed(q: RequestView, told: ToldView)
    requires
        fits(q.step, told),
    ensures
        (seal_next(q, told) matches NextView::Answer { arm: Some(s), .. } ==> (told matches
            ToldView::Saved(Ok(_))) && s == q.held),
        ((told matches ToldView::Saved(Ok(_))) ==> (seal_next(q, told) matches NextView::Answer {
            arm: Some(s),
            ..
        } && s == q.held)),
        (seal_next(q, told) matches NextView::Answer { reply, arm, .. } ==> (arm is Some
            <==> reply matches ReplyView::Control { ok: true, .. })),
{
}

/// A removal that succeeds saves and arms the store as it was loaded without the
/// records of this id: the id is gone, and every other one is as it was.
pub proof fn a_removal_takes_only_its_own(
    q: RequestView,
    loaded: Seq<RecordView>,
    other: Seq<char>,
)
    requires
        q.step == (SealStep::LoadStore { removing: true }),
    ensures
        ({
            let asked = seal_after(q, ToldView::Loaded(Ok(loaded)));
            let kept = sealed::without(loaded, q.id);
            &&& seal_next(q, ToldView::Loaded(Ok(loaded))) == NextView::Save(kept)
            &&& fits(asked.step, ToldView::Saved(Ok(())))
            &&& seal_next(asked, ToldView::Saved(Ok(()))) matches NextView::Answer { reply, arm, .. }
                && reply == reply::said(true, "removed "@ + q.id) && arm == Some(kept)
            &&& sealed::record_of(kept, q.id) is None
            &&& other != q.id ==> sealed::record_of(kept, other) == sealed::record_of(loaded, other)
        }),
{
    let any = RecordView {
        account_id: other,
        ephemeral_pub: other,
        se_key_id: other,
        ecdh_algo: other,
    };
    sealed::a_change_touches_only_its_id(loaded, q.id, any, other);
}

/// A seal that succeeds saves and arms the store as it was loaded with the new
/// record under this id, and every other id as it was.
pub proof fn a_seal_changes_only_its_own(
    q: RequestView,
    loaded: Seq<RecordView>,
    record: RecordView,
    other: Seq<char>,
)
    requires
        q.step == (SealStep::LoadStore { removing: false }),
    ensures
        ({
            let held = seal_after(q, ToldView::Loaded(Ok(loaded)));
            let paired = seal_after(held, ToldView::Pairing(Ok(Some(true))));
            let ready = seal_after(paired, ToldView::Share(Ok(true)));
            let asked = seal_after(ready, ToldView::Sealed(Ok(record)));
            let kept = sealed::with_record(loaded, q.id, record);
            &&& ready.step is Seal
            &&& seal_next(ready, ToldView::Sealed(Ok(record))) == NextView::Save(kept)
            &&& fits(asked.step, ToldView::Saved(Ok(())))
            &&& seal_next(asked, ToldView::Saved(Ok(()))) matches NextView::Answer { reply, arm, .. }
                && reply == reply::said(true, "sealed "@ + q.id) && arm == Some(kept)
            &&& sealed::record_of(kept, q.id) == Some(RecordView { account_id: q.id, ..record })
            &&& other != q.id ==> sealed::record_of(kept, other) == sealed::record_of(loaded, other)
        }),
{
    sealed::a_change_touches_only_its_id(loaded, q.id, record, other);
}

/// A keystore that refuses to serve seals nothing: the request ends at once with
/// the reason.
pub proof fn a_refusing_keystore_seals_nothing(v: VaultView)
    requires
        v.seal.blocks(v.provisioned),
    ensures
        seal_start(v) == fails(v.seal.why(v.provisioned)->0),
        v.seal.why(v.provisioned) is Some,
{
}

/// A request that cannot go on ends there: it answers with what went wrong, in one
/// line that ends in the reason, says nothing in the log, and arms nothing.
pub proof fn every_failure_says_why(q: RequestView, told: ToldView, e: Seq<char>)
    requires
        fits(q.step, told),
        told == ToldView::Value(Err(e)) || told == ToldView::Loaded(Err(e)) || told
            == ToldView::Saved(Err(e)) || told == ToldView::Pairing(Err(e)) || told
            == ToldView::Share(Err(e)) || told == ToldView::Sealed(Err(e)),
    ensures
        seal_next(q, told) matches NextView::Answer {
            reply: ReplyView::Control { ok, lines },
            log,
            arm,
        } && !ok && lines.len() == 1 && text::occurs_in(lines[0], e) && log is None && arm is None,
        seal_after(q, told).step is Ended,
        seal_after(q, told).held == q.held,
{
    broadcast use text::parts_stand_in;

}

/// A value goes the way of its length: an empty one leads to a removal, any other to
/// the pairing, the share and the seal, in this order, and each only where the one
/// before it is there. The store that is loaded is the one that is worked on.
pub proof fn a_seal_goes_step_by_step(q: RequestView, told: ToldView)
    requires
        fits(q.step, told),
    ensures
        seal_after(q, told).id == q.id,
        (seal_next(q, told) matches NextView::Go(step) ==> {
            &&& seal_after(q, told).step == step
            &&& step matches SealStep::LoadStore { removing } ==> told == ToldView::Value(
                Ok(removing),
            )
            &&& step is LoadPairing ==> q.step == (SealStep::LoadStore { removing: false })
            &&& step is LoadShare ==> q.step is LoadPairing && told == ToldView::Pairing(
                Ok(Some(true)),
            )
            &&& step is Seal ==> q.step is LoadShare && told == ToldView::Share(Ok(true))
            &&& !(step is ReadValue || step is SaveRemoved || step is SaveSealed || step is Ended)
        }),
        (told matches ToldView::Value(Ok(empty)) ==> seal_next(q, told) == NextView::Go(
            SealStep::LoadStore { removing: empty },
        )),
        q.step == (SealStep::LoadStore { removing: false }) ==> (told matches ToldView::Loaded(Ok(s))
            ==> seal_after(q, told).step is LoadPairing && seal_after(q, told).held == s),
        told == ToldView::Pairing(Ok(Some(true))) ==> seal_after(q, told).step is LoadShare
            && seal_after(q, told).held == q.held,
        told == ToldView::Share(Ok(true)) ==> seal_after(q, told).step is Seal && seal_after(
            q,
            told,
        ).held == q.held,
        (seal_next(q, told) matches NextView::Save(s) ==> seal_after(q, told).held == s && (
        q.step is Seal || q.step == (SealStep::LoadStore { removing: true }))),
        seal_next(q, told) is Answer ==> seal_after(q, told).step is Ended,
{
}

/// A machine without a phone, without the phone's share or without its own share
/// seals nothing, and says so.
pub proof fn a_missing_share_seals_nothing(q: RequestView, told: ToldView)
    requires
        fits(q.step, told),
        told == ToldView::Pairing(Ok(None)) || told == ToldView::Pairing(Ok(Some(false))) || told
            == ToldView::Share(Ok(false)),
    ensures
        seal_next(q, told) matches NextView::Answer {
            reply: ReplyView::Control { ok, lines },
            log,
            arm,
        } && !ok && lines.len() == 1 && log is None && arm is None,
{
}

/// What a move came to is all that it says: the records that are armed are as they
/// were, but where an answer arms others, and then they are those.
pub proof fn a_move_is_carried_out_whole(
    next: SealNext,
    armed: Seq<RecordView>,
    before: Seq<RecordView>,
    view: NextView,
)
    requires
        follows(next, armed, before, view),
    ensures
        !(view is Answer) ==> armed == before,
        view matches NextView::Answer { arm: None, .. } ==> armed == before,
        view matches NextView::Answer { arm: Some(s), .. } ==> armed == s,
        view matches NextView::Go(s) ==> next == SealNext::Go(s),
        view matches NextView::Save(s) ==> (next matches SealNext::Save(store) && store@ == s),
        view matches NextView::Answer { reply, log, .. } ==> (next matches SealNext::Answer {
            reply: said,
            log: line,
        } && said@ == reply && text::maybe_text(line) == log),
{
}

} // verus!
