//! The requests that wait for an answer, as they are shown.
use crate::daemon::request::{KindView, RefView, RequestKind, SecretRef};
use crate::lists;
use crate::policy::{LeasePolicy, PolicyView};
use crate::text;
use vstd::prelude::*;
use vstd::string::*;

verus! {

/// What a signature request shows.
#[derive(Debug, Clone, PartialEq, Eq)]
pub struct SshShown {
    pub key_label: String,
    pub host: String,
    pub fingerprint: String,
}

/// What a signature request shows, as plain values.
#[verifier::ext_equal]
pub struct SshShownView {
    pub key_label: Seq<char>,
    pub host: Seq<char>,
    pub fingerprint: Seq<char>,
}

impl View for SshShown {
    type V = SshShownView;

    open spec fn view(&self) -> SshShownView {
        SshShownView {
            key_label: self.key_label@,
            host: self.host@,
            fingerprint: self.fingerprint@,
        }
    }
}

/// What is shown of a request. Names and provenance only, never a secret.
pub struct Readout {
    pub id: String,
    pub kind: RequestKind,
    pub command: Vec<String>,
    pub secrets: Vec<SecretRef>,
    pub ssh: Option<SshShown>,
    pub process_chain: Vec<String>,
    pub cwd: String,
    pub machine: String,
    pub lease: LeasePolicy,
    pub reason: Option<String>,
}

/// A readout as plain values.
#[verifier::ext_equal]
pub struct ReadoutView {
    pub id: Seq<char>,
    pub kind: KindView,
    pub command: Seq<Seq<char>>,
    pub secrets: Seq<RefView>,
    pub ssh: Option<SshShownView>,
    pub process_chain: Seq<Seq<char>>,
    pub cwd: Seq<char>,
    pub machine: Seq<char>,
    pub lease: PolicyView,
    pub reason: Option<Seq<char>>,
}

impl View for Readout {
    type V = ReadoutView;

    open spec fn view(&self) -> ReadoutView {
        ReadoutView {
            id: self.id@,
            kind: self.kind@,
            command: text::texts(self.command@),
            secrets: lists::views(self.secrets@),
            ssh: match self.ssh {
                Some(s) => Some(s@),
                None => None,
            },
            process_chain: text::texts(self.process_chain@),
            cwd: self.cwd@,
            machine: self.machine@,
            lease: self.lease@,
            reason: text::maybe_text(self.reason),
        }
    }
}

/// A request that waits on the control socket.
pub struct LocalPending {
    pub readout: Readout,
    pub queued_at_ms: u64,
    pub timeout_ms: u64,
}

/// A local request as plain values.
#[verifier::ext_equal]
pub struct LocalView {
    pub readout: ReadoutView,
    pub queued_at_ms: u64,
    pub timeout_ms: u64,
}

impl View for LocalPending {
    type V = LocalView;

    open spec fn view(&self) -> LocalView {
        LocalView {
            readout: self.readout@,
            queued_at_ms: self.queued_at_ms,
            timeout_ms: self.timeout_ms,
        }
    }
}

/// A request that waits for a phone.
pub struct RemotePending {
    pub readout: Readout,
    pub queued_at_ms: u64,
    pub expires_at_ms: u64,
    pub timeout_ms: u64,
    pub delivered_at_ms: Option<u64>,
}

/// A remote request as plain values.
#[verifier::ext_equal]
pub struct RemoteView {
    pub readout: ReadoutView,
    pub queued_at_ms: u64,
    pub expires_at_ms: u64,
    pub timeout_ms: u64,
    pub delivered_at_ms: Option<u64>,
}

impl View for RemotePending {
    type V = RemoteView;

    open spec fn view(&self) -> RemoteView {
        RemoteView {
            readout: self.readout@,
            queued_at_ms: self.queued_at_ms,
            expires_at_ms: self.expires_at_ms,
            timeout_ms: self.timeout_ms,
            delivered_at_ms: self.delivered_at_ms,
        }
    }
}

/// One row of the list that is shown.
pub struct PendingRow {
    pub readout: Readout,
    pub requested_ms: u64,
    pub leasable: bool,
    pub max_lease_secs: Option<u32>,
    pub expires_ms: u64,
    pub timeout_ms: u64,
    pub coalesced: u32,
    pub delivered: bool,
    pub delivered_at_ms: Option<u64>,
}

/// A row as plain values.
#[verifier::ext_equal]
pub struct RowView {
    pub readout: ReadoutView,
    pub requested_ms: u64,
    pub leasable: bool,
    pub max_lease_secs: Option<u32>,
    pub expires_ms: u64,
    pub timeout_ms: u64,
    pub coalesced: u32,
    pub delivered: bool,
    pub delivered_at_ms: Option<u64>,
}

impl View for PendingRow {
    type V = RowView;

    open spec fn view(&self) -> RowView {
        RowView {
            readout: self.readout@,
            requested_ms: self.requested_ms,
            leasable: self.leasable,
            max_lease_secs: self.max_lease_secs,
            expires_ms: self.expires_ms,
            timeout_ms: self.timeout_ms,
            coalesced: self.coalesced,
            delivered: self.delivered,
            delivered_at_ms: self.delivered_at_ms,
        }
    }
}

/// The cap of a policy, where it has one.
pub open spec fn cap_of(p: PolicyView) -> Option<u32> {
    match p {
        PolicyView::RunOnce => None,
        PolicyView::Leasable { max_secs, .. } => Some(max_secs),
    }
}

fn cap(p: &LeasePolicy) -> (r: Option<u32>)
    ensures
        r == cap_of(p@),
{
    match p {
        LeasePolicy::RunOnce => None,
        LeasePolicy::Leasable { max_secs, .. } => Some(*max_secs),
    }
}

/// The row of a local request: no phone is involved, so it is never delivered.
pub open spec fn local_row(p: LocalView) -> RowView {
    RowView {
        readout: ReadoutView { reason: None, ..p.readout },
        requested_ms: p.queued_at_ms,
        leasable: p.readout.lease is Leasable,
        max_lease_secs: cap_of(p.readout.lease),
        expires_ms: (p.queued_at_ms + p.timeout_ms) as u64,
        timeout_ms: p.timeout_ms,
        coalesced: 0,
        delivered: false,
        delivered_at_ms: None,
    }
}

/// The row of a remote request, with what the phone has acknowledged.
pub open spec fn remote_row(p: RemoteView) -> RowView {
    RowView {
        readout: p.readout,
        requested_ms: p.queued_at_ms,
        leasable: p.readout.lease is Leasable,
        max_lease_secs: cap_of(p.readout.lease),
        expires_ms: p.expires_at_ms,
        timeout_ms: p.timeout_ms,
        coalesced: 0,
        delivered: p.delivered_at_ms is Some,
        delivered_at_ms: p.delivered_at_ms,
    }
}

/// The row of a local request.
pub fn local_pending_row(p: LocalPending) -> (r: PendingRow)
    requires
        p.queued_at_ms + p.timeout_ms <= u64::MAX,
    ensures
        r@ == local_row(p@),
{
    let leasable = p.readout.lease.is_leasable();
    let max_lease_secs: Option<u32> = cap(&p.readout.lease);
    let mut readout = p.readout;
    readout.reason = None;
    let r = PendingRow {
        readout,
        requested_ms: p.queued_at_ms,
        leasable,
        max_lease_secs,
        expires_ms: p.queued_at_ms + p.timeout_ms,
        timeout_ms: p.timeout_ms,
        coalesced: 0,
        delivered: false,
        delivered_at_ms: None,
    };
    assert(r@ =~= local_row(p@));
    r
}

/// The row of a remote request.
pub fn remote_pending_json(p: RemotePending) -> (r: PendingRow)
    ensures
        r@ == remote_row(p@),
{
    let leasable = p.readout.lease.is_leasable();
    let max_lease_secs: Option<u32> = cap(&p.readout.lease);
    let delivered = p.delivered_at_ms.is_some();
    let r = PendingRow {
        readout: p.readout,
        requested_ms: p.queued_at_ms,
        leasable,
        max_lease_secs,
        expires_ms: p.expires_at_ms,
        timeout_ms: p.timeout_ms,
        coalesced: 0,
        delivered,
        delivered_at_ms: p.delivered_at_ms,
    };
    assert(r@ =~= remote_row(p@));
    r
}

/// One request as two devices hold it: the earliest time it was queued, and a
/// delivery that either of them saw.
pub open spec fn combined(a: RemoteView, b: RemoteView) -> RemoteView {
    RemoteView {
        queued_at_ms: if b.queued_at_ms < a.queued_at_ms {
            b.queued_at_ms
        } else {
            a.queued_at_ms
        },
        delivered_at_ms: if a.delivered_at_ms is None {
            b.delivered_at_ms
        } else {
            a.delivered_at_ms
        },
        ..a
    }
}

/// The requests of all devices, each once: a request that rings every device
/// shows up once for each.
pub open spec fn merged(all: Seq<RemoteView>) -> Seq<RemoteView>
    decreases all.len(),
{
    if all.len() == 0 {
        Seq::empty()
    } else {
        let before = merged(all.drop_last());
        let x = all.last();
        let at = lists::first_where(before, |p: RemoteView| p.readout.id == x.readout.id);
        if at < before.len() {
            before.update(at, combined(before[at], x))
        } else {
            before.push(x)
        }
    }
}

/// What a list of remote requests is sorted by: the youngest first.
pub open spec fn age_key(p: RemoteView) -> int {
    u64::MAX - p.queued_at_ms
}

/// The rows that are shown: the local requests, then those of the phones, each
/// once and the youngest first.
pub open spec fn pending_rows(local: Seq<LocalView>, remote: Seq<RemoteView>) -> Seq<RowView> {
    local.map_values(|p: LocalView| local_row(p)) + lists::sorted_by(
        merged(remote),
        |p: RemoteView| age_key(p),
    ).map_values(|p: RemoteView| remote_row(p))
}

fn find(seen: &Vec<RemotePending>, id: &str) -> (at: usize)
    ensures
        at == lists::first_where(
            lists::views(seen@),
            |p: RemoteView| p.readout.id == id@,
        ),
        at <= seen@.len(),
{
    let ghost all = lists::views(seen@);
    let ghost p = |p: RemoteView| p.readout.id == id@;
    let mut i: usize = 0;
    while i < seen.len()
        invariant
            i <= seen.len(),
            all == lists::views(seen@),
            p == (|p: RemoteView| p.readout.id == id@),
            forall|k: int| 0 <= k < i ==> !p(#[trigger] all[k]),
        decreases seen.len() - i,
    {
        if text::same(seen[i].readout.id.as_str(), id) {
            assert(p(all[i as int]));
            proof {
                lists::first_where_is(all, p, i as int);
            }
            return i;
        }
        assert(!p(all[i as int]));
        i += 1;
    }
    proof {
        lists::first_where_is(all, p, i as int);
    }
    i
}

/// The requests of all devices, each once.
pub fn merge(all: Vec<RemotePending>) -> (r: Vec<RemotePending>)
    ensures
        lists::views(r@) == merged(lists::views(all@)),
{
    let ghost v = lists::views(all@);
    let mut out: Vec<RemotePending> = Vec::new();
    assert(lists::views(out@) =~= merged(v.take(0)));
    for snap in it: all
        invariant
            it.seq() == all@,
            v == lists::views(all@),
            lists::views(out@) == merged(v.take(it.index() as int)),
    {
        let ghost i = it.index() as int;
        let ghost before = lists::views(out@);
        assert(v.take(i + 1).drop_last() =~= v.take(i));
        assert(v.take(i + 1).last() == snap@);
        let at: usize = find(&out, snap.readout.id.as_str());
        if at < out.len() {
            let mut held = out.remove(at);
            let ghost h = held@;
            assert(h == before[at as int]);
            if snap.queued_at_ms < held.queued_at_ms {
                held.queued_at_ms = snap.queued_at_ms;
            }
            if held.delivered_at_ms.is_none() {
                held.delivered_at_ms = snap.delivered_at_ms;
            }
            assert(held@ =~= combined(h, snap@));
            out.insert(at, held);
            assert(lists::views(out@) =~= before.update(at as int, combined(h, snap@)));
        } else {
            out.push(snap);
            assert(lists::views(out@) =~= before.push(snap@));
        }
    }
    assert(v.take(all@.len() as int) =~= v);
    out
}

/// The rows that are shown. `remote` is what the devices hold, device by device.
pub fn pending_json(local: Vec<LocalPending>, remote: Vec<RemotePending>) -> (r: Vec<PendingRow>)
    requires
        forall|i: int|
            0 <= i < local@.len() ==> (#[trigger] local@[i]).queued_at_ms + local@[i].timeout_ms
                <= u64::MAX,
    ensures
        lists::views(r@) == pending_rows(lists::views(local@), lists::views(remote@)),
{
    let ghost l = lists::views(local@);
    let ghost first = l.map_values(|p: LocalView| local_row(p));
    let mut rows: Vec<PendingRow> = Vec::new();
    assert(lists::views(rows@) =~= first.take(0));
    for p in it: local
        invariant
            it.seq() == local@,
            l == lists::views(local@),
            first == l.map_values(|p: LocalView| local_row(p)),
            forall|i: int|
                0 <= i < local@.len() ==> (#[trigger] local@[i]).queued_at_ms
                    + local@[i].timeout_ms <= u64::MAX,
            lists::views(rows@) == first.take(it.index() as int),
    {
        let ghost i = it.index() as int;
        let ghost before = lists::views(rows@);
        assert(p == local@[i]);
        assert(first[i] == local_row(p@));
        rows.push(local_pending_row(p));
        assert(lists::views(rows@) =~= before.push(first[i]));
        assert(first.take(i + 1) =~= before.push(first[i]));
    }
    assert(first.take(local@.len() as int) =~= first);
    let once = merge(remote);
    let key = |p: &RemotePending| -> (n: u128)
        ensures
            n == age_key(p@),
        { (18446744073709551615u64 - p.queued_at_ms) as u128 };
    let ordered = lists::sort_by_key(once, key, Ghost(|p: RemoteView| age_key(p)));
    let ghost s = lists::views(ordered@);
    let ghost rest = s.map_values(|p: RemoteView| remote_row(p));
    assert(first + rest.take(0) =~= first);
    for p in it: ordered
        invariant
            it.seq() == ordered@,
            s == lists::views(ordered@),
            rest == s.map_values(|p: RemoteView| remote_row(p)),
            lists::views(rows@) == first + rest.take(it.index() as int),
    {
        let ghost i = it.index() as int;
        let ghost before = lists::views(rows@);
        assert(p == ordered@[i]);
        assert(rest[i] == remote_row(p@));
        rows.push(remote_pending_json(p));
        assert(lists::views(rows@) =~= before.push(rest[i]));
        assert(first + rest.take(i + 1) =~= before.push(rest[i]));
    }
    assert(rest.take(ordered@.len() as int) =~= rest);
    rows
}

/// Each request is shown once, however many devices it rings: as a device holds
/// it, with the time of the first device that holds it, and delivered exactly where
/// one of them saw it delivered, at a time that one of them saw.
pub proof fn each_request_is_shown_once(all: Seq<RemoteView>)
    ensures
        forall|i: int, j: int|
            0 <= i < j < merged(all).len() ==> (#[trigger] merged(all)[i]).readout.id != (
            #[trigger] merged(all)[j]).readout.id,
        forall|i: int|
            0 <= i < all.len() ==> shown_among(merged(all), #[trigger] all[i]),
        forall|k: int|
            0 <= k < merged(all).len() ==> stands_for(all, #[trigger] merged(all)[k]),
    decreases all.len(),
{
    if all.len() > 0 {
        let rest = all.drop_last();
        let x = all.last();
        each_request_is_shown_once(rest);
        let before = merged(rest);
        let p = |p: RemoteView| p.readout.id == x.readout.id;
        lists::first_where_is_first(before, p);
        let at = lists::first_where(before, p);
        let after = merged(all);
        if at == before.len() {
            assert forall|i: int, j: int| 0 <= i < j < after.len() implies (
            #[trigger] after[i]).readout.id != (#[trigger] after[j]).readout.id by {
                if j == before.len() {
                    assert(!p(before[i]));
                } else {
                    assert(before[i].readout.id != before[j].readout.id);
                }
            }
            assert(shows(after[at], x));
        } else {
            assert forall|i: int, j: int| 0 <= i < j < after.len() implies (
            #[trigger] after[i]).readout.id != (#[trigger] after[j]).readout.id by {
                assert(before[i].readout.id != before[j].readout.id);
            }
            assert(shows(after[at], x));
        }
        assert forall|i: int| 0 <= i < all.len() implies shown_among(after, #[trigger] all[i]) by {
            if i < rest.len() {
                assert(rest[i] == all[i]);
                assert(shown_among(before, rest[i]));
                let k = choose|k: int| 0 <= k < before.len() && shows(#[trigger] before[k], rest[i]);
                assert(shows(after[k], all[i]));
            }
        }
        assert forall|k: int| 0 <= k < after.len() implies stands_for(all, #[trigger] after[k]) by {
            let n = rest.len() as int;
            assert(all[n] == x);
            assert(forall|i: int| 0 <= i < n ==> #[trigger] rest[i] == all[i]);
            let row = after[k];
            if k == before.len() {
                assert(row == x);
                assert(as_held(row, all[n]));
                assert(queued_as(row, all[n]));
                if x.delivered_at_ms is Some {
                    assert(delivered_as(row, all[n]));
                }
            } else {
                assert(stands_for(rest, before[k]));
                let h = choose|i: int| 0 <= i < rest.len() && as_held(before[k], #[trigger] rest[i]);
                let q = choose|i: int|
                    0 <= i < rest.len() && queued_as(before[k], #[trigger] rest[i]);
                assert(as_held(row, all[h]));
                if row.queued_at_ms == before[k].queued_at_ms {
                    assert(queued_as(row, all[q]));
                } else {
                    assert(queued_as(row, all[n]));
                }
                if row.delivered_at_ms is Some {
                    if before[k].delivered_at_ms is Some {
                        let d = choose|i: int|
                            0 <= i < rest.len() && delivered_as(before[k], #[trigger] rest[i]);
                        assert(delivered_as(row, all[d]));
                    } else {
                        assert(delivered_as(row, all[n]));
                    }
                }
            }
            assert forall|i: int|
                0 <= i < all.len() && (#[trigger] all[i]).readout.id == row.readout.id
                    && all[i].delivered_at_ms is Some implies row.delivered_at_ms is Some by {
                assert(shown_among(after, all[i]));
                let m = choose|m: int| 0 <= m < after.len() && shows(#[trigger] after[m], all[i]);
                if m < k {
                    assert(after[m].readout.id != after[k].readout.id);
                } else if k < m {
                    assert(after[k].readout.id != after[m].readout.id);
                }
            }
        }
    }
}

/// A row stands for a request that a device holds.
pub open spec fn shows(row: RemoteView, p: RemoteView) -> bool {
    &&& row.readout.id == p.readout.id
    &&& row.queued_at_ms <= p.queued_at_ms
    &&& p.delivered_at_ms is Some ==> row.delivered_at_ms is Some
}

/// Some row stands for a request that a device holds.
pub open spec fn shown_among(rows: Seq<RemoteView>, p: RemoteView) -> bool {
    exists|k: int| 0 <= k < rows.len() && shows(#[trigger] rows[k], p)
}

/// A row is what a device holds, but for its times.
pub open spec fn as_held(row: RemoteView, p: RemoteView) -> bool {
    row == RemoteView {
        queued_at_ms: row.queued_at_ms,
        delivered_at_ms: row.delivered_at_ms,
        ..p
    }
}

/// A row has the time at which a device queued its request.
pub open spec fn queued_as(row: RemoteView, p: RemoteView) -> bool {
    p.readout.id == row.readout.id && p.queued_at_ms == row.queued_at_ms
}

/// A row has the time at which a device saw its request delivered.
pub open spec fn delivered_as(row: RemoteView, p: RemoteView) -> bool {
    p.readout.id == row.readout.id && p.delivered_at_ms is Some && p.delivered_at_ms
        == row.delivered_at_ms
}

/// Everything that a row says is what some device holds under its id, and it says
/// that the request was delivered exactly where a device saw that.
pub open spec fn stands_for(all: Seq<RemoteView>, row: RemoteView) -> bool {
    &&& exists|i: int| 0 <= i < all.len() && as_held(row, #[trigger] all[i])
    &&& exists|i: int| 0 <= i < all.len() && queued_as(row, #[trigger] all[i])
    &&& row.delivered_at_ms is Some ==> exists|i: int|
        0 <= i < all.len() && delivered_as(row, #[trigger] all[i])
    &&& row.delivered_at_ms is Some <==> exists|i: int|
        0 <= i < all.len() && (#[trigger] all[i]).readout.id == row.readout.id
            && all[i].delivered_at_ms is Some
}

/// A row tells what waits: the request itself, when it was asked and until when it
/// waits, whether a window may come of it and of what length, and whether a phone
/// has it. A local request is on no phone.
pub proof fn a_row_tells_what_waits(l: LocalView, r: RemoteView)
    requires
        l.queued_at_ms + l.timeout_ms <= u64::MAX,
    ensures
        ({
            let row = local_row(l);
            &&& row.readout.id == l.readout.id && row.readout.kind == l.readout.kind
            &&& row.readout.command == l.readout.command && row.readout.secrets
                == l.readout.secrets
            &&& row.readout.ssh == l.readout.ssh && row.readout.process_chain
                == l.readout.process_chain
            &&& row.readout.cwd == l.readout.cwd && row.readout.machine == l.readout.machine
            &&& row.readout.lease == l.readout.lease && row.readout.reason is None
            &&& row.requested_ms == l.queued_at_ms
            &&& row.expires_ms - row.requested_ms == l.timeout_ms && row.timeout_ms
                == l.timeout_ms
            &&& !row.delivered && row.delivered_at_ms is None && row.coalesced == 0
            &&& row.leasable <==> row.max_lease_secs is Some
            &&& l.readout.lease is RunOnce ==> !row.leasable
            &&& l.readout.lease matches PolicyView::Leasable { max_secs, .. }
                ==> row.max_lease_secs == Some(max_secs)
        }),
        ({
            let row = remote_row(r);
            &&& row.readout == r.readout
            &&& row.requested_ms == r.queued_at_ms && row.expires_ms == r.expires_at_ms
            &&& row.timeout_ms == r.timeout_ms && row.coalesced == 0
            &&& row.delivered <==> r.delivered_at_ms is Some
            &&& row.delivered_at_ms == r.delivered_at_ms
            &&& row.leasable <==> row.max_lease_secs is Some
            &&& r.readout.lease is RunOnce ==> !row.leasable
            &&& r.readout.lease matches PolicyView::Leasable { max_secs, .. }
                ==> row.max_lease_secs == Some(max_secs)
        }),
{
}

/// The list shows every request: first the local ones in their order, then those of
/// the phones, none before a younger one, and nothing besides.
pub proof fn the_list_shows_every_request(local: Seq<LocalView>, remote: Seq<RemoteView>)
    ensures
        ({
            let rows = pending_rows(local, remote);
            &&& rows.len() >= local.len()
            &&& forall|i: int|
                0 <= i < local.len() ==> (#[trigger] rows[i]).readout.id == local[i].readout.id
                    && rows[i].requested_ms == local[i].queued_at_ms
            &&& forall|i: int, j: int|
                local.len() <= i <= j < rows.len() ==> (#[trigger] rows[j]).requested_ms <= (
                #[trigger] rows[i]).requested_ms
            &&& forall|k: int|
                0 <= k < remote.len() ==> on_the_list(
                    rows.skip(local.len() as int),
                    #[trigger] remote[k],
                )
        }),
{
    let rows = pending_rows(local, remote);
    let n = local.len() as int;
    let s = lists::sorted_by(merged(remote), |p: RemoteView| age_key(p));
    assert(rows.skip(n) =~= s.map_values(|p: RemoteView| remote_row(p)));
    sorted_rows_descend(merged(remote));
    assert forall|i: int, j: int| n <= i <= j < rows.len() implies (
    #[trigger] rows[j]).requested_ms <= (#[trigger] rows[i]).requested_ms by {
        assert(rows[i] == remote_row(s[i - n]));
        assert(rows[j] == remote_row(s[j - n]));
    }
    assert forall|k: int| 0 <= k < remote.len() implies on_the_list(
        rows.skip(n),
        #[trigger] remote[k],
    ) by {
        held_is_listed(remote, k);
    }
}

proof fn sorted_rows_descend(m: Seq<RemoteView>)
    ensures
        ({
            let s = lists::sorted_by(m, |p: RemoteView| age_key(p));
            &&& forall|i: int, j: int|
                0 <= i <= j < s.len() ==> (#[trigger] s[j]).queued_at_ms <= (
                #[trigger] s[i]).queued_at_ms
            &&& forall|a: int| 0 <= a < m.len() ==> s.contains(#[trigger] m[a])
        }),
{
    let key = |p: RemoteView| age_key(p);
    let s = lists::sorted_by(m, key);
    lists::sorted_by_sorts(m, key);
    assert forall|i: int, j: int| 0 <= i <= j < s.len() implies (#[trigger] s[j]).queued_at_ms <= (
    #[trigger] s[i]).queued_at_ms by {
        if i < j {
            assert(key(s[i]) <= key(s[j]));
        }
    }
    assert forall|a: int| 0 <= a < m.len() implies s.contains(#[trigger] m[a]) by {
        m.to_multiset_ensures();
        s.to_multiset_ensures();
        assert(m.to_multiset().count(m[a]) > 0);
    }
}

proof fn held_is_listed(remote: Seq<RemoteView>, k: int)
    requires
        0 <= k < remote.len(),
    ensures
        on_the_list(
            lists::sorted_by(merged(remote), |p: RemoteView| age_key(p)).map_values(
                |p: RemoteView| remote_row(p),
            ),
            remote[k],
        ),
{
    let m = merged(remote);
    let s = lists::sorted_by(m, |p: RemoteView| age_key(p));
    assert(shown_among(m, remote[k])) by {
        each_request_is_shown_once(remote);
    }
    let a = choose|a: int| 0 <= a < m.len() && shows(#[trigger] m[a], remote[k]);
    assert(s.contains(m[a])) by {
        sorted_rows_descend(m);
    }
    let b = choose|b: int| 0 <= b < s.len() && s[b] == m[a];
    let rows = s.map_values(|p: RemoteView| remote_row(p));
    assert(rows[b] == remote_row(m[a]));
}

/// Some row has the id of a request that a device holds, is no younger, and is
/// delivered where the device saw that.
pub open spec fn on_the_list(rows: Seq<RowView>, p: RemoteView) -> bool {
    exists|k: int|
        0 <= k < rows.len() && (#[trigger] rows[k]).readout.id == p.readout.id
            && rows[k].requested_ms <= p.queued_at_ms && (p.delivered_at_ms is Some
            ==> rows[k].delivered)
}

} // verus!
