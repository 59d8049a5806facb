//! The open auto-approve windows.
use crate::bytes;
use crate::clock;
use crate::clock::Span;
use crate::lists;
use crate::secrets::Token;
use crate::text;
use rand_core::RngCore;
use std::time::Instant;
use vstd::prelude::*;
use vstd::string::*;

verus! {

/// The width of a lease id in hex characters.
pub const LEASE_ID_HEX_CHARS: usize = 32;

/// Everything besides the grant key that a lease must match on.
#[derive(Debug, Clone, PartialEq, Eq)]
pub struct LeaseBinding {
    /// The account or source label the grant covers. Empty for a plain gate.
    pub account: String,
    /// The matched rule's name. Never a raw command line.
    pub scope: String,
    /// A fingerprint of the source material a cached value came from. Empty when
    /// the lease caches nothing. A lookup misses once the source is re-sealed.
    pub source: String,
    /// The config generation this grant was decided under.
    pub config_gen: u64,
}

/// A binding as plain values.
#[verifier::ext_equal]
pub struct BindingView {
    pub account: Seq<char>,
    pub scope: Seq<char>,
    pub source: Seq<char>,
    pub config_gen: u64,
}

impl View for LeaseBinding {
    type V = BindingView;

    open spec fn view(&self) -> BindingView {
        BindingView {
            account: self.account@,
            scope: self.scope@,
            source: self.source@,
            config_gen: self.config_gen,
        }
    }
}

impl LeaseBinding {
    /// A binding over cached source material, decided under config `generation`.
    pub fn cached(account: &str, scope: &str, source: &str, generation: u64) -> (r: LeaseBinding)
        ensures
            r@ == (BindingView {
                account: account@,
                scope: scope@,
                source: source@,
                config_gen: generation,
            }),
    {
        LeaseBinding {
            account: account.to_owned(),
            scope: scope.to_owned(),
            source: source.to_owned(),
            config_gen: generation,
        }
    }

    /// A binding for a lease that caches nothing: no source material to pin.
    pub fn presence(account: &str, scope: &str, generation: u64) -> (r: LeaseBinding)
        ensures
            r@ == (BindingView {
                account: account@,
                scope: scope@,
                source: Seq::empty(),
                config_gen: generation,
            }),
    {
        proof {
            reveal_strlit("");
        }
        assert(""@ =~= Seq::<char>::empty());
        LeaseBinding::cached(account, scope, "", generation)
    }

    /// Whether two bindings name the same four things.
    pub fn same(&self, other: &LeaseBinding) -> (r: bool)
        ensures
            r == (self@ == other@),
    {
        self.account == other.account && self.scope == other.scope && self.source == other.source
            && self.config_gen == other.config_gen
    }

    /// Another binding over the same four things.
    pub fn duplicate(&self) -> (r: LeaseBinding)
        ensures
            r@ == self@,
    {
        LeaseBinding {
            account: self.account.clone(),
            scope: self.scope.clone(),
            source: self.source.clone(),
            config_gen: self.config_gen,
        }
    }
}

/// A granted lease: an auto-approve window, held in memory only.
pub struct Lease {
    grant: [u8; 32],
    /// This window's opaque id, minted when the window opens and kept for its
    /// whole life. It names one window, where a grant key names a shape that
    /// several windows can share.
    id: [u8; 16],
    binding: LeaseBinding,
    /// The coverage label of the rule this window covers. For display only, and
    /// no part of the binding.
    covers: String,
    token: Token,
    granted: u128,
    expires: u128,
}

/// A lease as plain values. Times are clock readings in nanoseconds.
#[verifier::ext_equal]
pub struct LeaseView {
    pub grant: Seq<u8>,
    pub id: Seq<u8>,
    pub binding: BindingView,
    pub covers: Seq<char>,
    pub token: Seq<u8>,
    pub granted: int,
    pub expires: int,
}

impl View for Lease {
    type V = LeaseView;

    closed spec fn view(&self) -> LeaseView {
        LeaseView {
            grant: self.grant@,
            id: self.id@,
            binding: self.binding@,
            covers: self.covers@,
            token: self.token@,
            granted: self.granted as int,
            expires: self.expires as int,
        }
    }
}

/// A read-only view of an active lease, for display.
#[derive(Debug, Clone)]
pub struct LeaseInfo {
    pub grant_hex: String,
    /// The window's opaque id in lowercase hex: the one identifier that is safe
    /// to hand to a remote controller.
    pub lease_id: String,
    pub account: String,
    /// The rule name the lease covers.
    pub scope: String,
    /// What that rule matches, in words. Empty where none was rendered.
    pub covers: String,
    pub remaining: Span,
    pub age: Span,
}

/// Lease information as plain values.
#[verifier::ext_equal]
pub struct InfoView {
    pub grant_hex: Seq<char>,
    pub lease_id: Seq<char>,
    pub account: Seq<char>,
    pub scope: Seq<char>,
    pub covers: Seq<char>,
    pub remaining: int,
    pub age: int,
}

impl View for LeaseInfo {
    type V = InfoView;

    open spec fn view(&self) -> InfoView {
        InfoView {
            grant_hex: self.grant_hex@,
            lease_id: self.lease_id@,
            account: self.account@,
            scope: self.scope@,
            covers: self.covers@,
            remaining: self.remaining.nanos as int,
            age: self.age.nanos as int,
        }
    }
}

/// The leases that have not run out at `now`.
pub open spec fn live(s: Seq<LeaseView>, now: int) -> Seq<LeaseView> {
    s.filter(|l: LeaseView| l.expires > now)
}

/// A lease answers a lookup only where the grant key and all four legs of the
/// binding match.
pub open spec fn answers(grant: Seq<u8>, binding: BindingView) -> spec_fn(LeaseView) -> bool {
    |l: LeaseView| l.grant == grant && l.binding == binding
}

/// What is asked of the store when a lease is granted.
#[verifier::ext_equal]
pub struct GrantView {
    pub grant: Seq<u8>,
    pub binding: BindingView,
    pub covers: Seq<char>,
    pub token: Seq<u8>,
    pub ttl: int,
}

/// The store after a grant at `now`: the leases that had run out are gone, and
/// the window for this key and binding is refreshed, or opened under `id`.
pub open spec fn granted(s: Seq<LeaseView>, now: int, id: Seq<u8>, g: GrantView) -> Seq<LeaseView> {
    let l = live(s, now);
    let at = lists::first_where(l, answers(g.grant, g.binding));
    if at < l.len() {
        l.update(
            at,
            LeaseView {
                grant: l[at].grant,
                id: l[at].id,
                binding: l[at].binding,
                covers: g.covers,
                token: g.token,
                granted: l[at].granted,
                expires: now + g.ttl,
            },
        )
    } else {
        l.push(
            LeaseView {
                grant: g.grant,
                id,
                binding: g.binding,
                covers: g.covers,
                token: g.token,
                granted: now,
                expires: now + g.ttl,
            },
        )
    }
}

/// The secret that a lookup at `now` gives, if any lease answers it.
pub open spec fn looked_up(
    s: Seq<LeaseView>,
    now: int,
    grant: Seq<u8>,
    binding: BindingView,
) -> Option<Seq<u8>> {
    let l = live(s, now);
    let at = lists::first_where(l, answers(grant, binding));
    if at < l.len() {
        Some(l[at].token)
    } else {
        None
    }
}

/// What is shown of a lease at `now`.
pub open spec fn info_of(l: LeaseView, now: int) -> InfoView {
    InfoView {
        grant_hex: bytes::hex_of(l.grant),
        lease_id: bytes::hex_of(l.id),
        account: l.binding.account,
        scope: l.binding.scope,
        covers: l.covers,
        remaining: if l.expires > now {
            l.expires - now
        } else {
            0
        },
        age: if now > l.granted {
            now - l.granted
        } else {
            0
        },
    }
}

/// What is shown of a store at `now`: its live leases, youngest first.
pub open spec fn shown(s: Seq<LeaseView>, now: int) -> Seq<InfoView> {
    lists::sorted_by(
        Seq::new(live(s, now).len(), |i: int| info_of(live(s, now)[i], now)),
        |i: InfoView| i.age,
    )
}

/// A hexadecimal digit of either case.
pub open spec fn is_hex_char(c: char) -> bool {
    ('0' as int <= c as int <= '9' as int) || ('a' as int <= c as int <= 'f' as int) || ('A' as int
        <= c as int <= 'F' as int)
}

/// A string that could name a window: 32 hexadecimal digits.
pub open spec fn names_a_window(lease_id: Seq<char>) -> bool {
    lease_id.len() == LEASE_ID_HEX_CHARS && forall|i: int|
        0 <= i < lease_id.len() ==> is_hex_char(#[trigger] lease_id[i])
}

/// The store without the window of exactly this id.
pub open spec fn without_id(s: Seq<LeaseView>, lease_id: Seq<char>) -> Seq<LeaseView> {
    s.filter(|l: LeaseView| bytes::hex_of(l.id) != lease_id)
}

/// The store without the windows of exactly this scope.
pub open spec fn without_scope(s: Seq<LeaseView>, scope: Seq<char>) -> Seq<LeaseView> {
    s.filter(|l: LeaseView| l.binding.scope != scope)
}

/// The store without the windows whose grant key in hex starts with `prefix`.
pub open spec fn without_prefix(s: Seq<LeaseView>, prefix: Seq<char>) -> Seq<LeaseView> {
    s.filter(|l: LeaseView| !prefix.is_prefix_of(bytes::hex_of(l.grant)))
}

/// `rand_core::OsRng::fill_bytes` over sixteen bytes: a fresh opaque lease id.
/// Nothing is claimed of the bytes. It panics where the system has no randomness
/// to give.
#[verifier::external_body]
pub(crate) fn new_lease_id() -> [u8; 16] {
    let mut id = [0u8; 16];
    rand_core::OsRng.fill_bytes(&mut id);
    id
}

/// Lowercase hex of a 32-byte key.
pub fn hex32(key: &[u8; 32]) -> (r: String)
    ensures
        r@ == bytes::hex_of(key@),
{
    bytes::hex(key.as_slice())
}

/// Lowercase hex of a 16-byte lease id.
pub fn hex16(id: &[u8; 16]) -> (r: String)
    ensures
        r@ == bytes::hex_of(id@),
{
    bytes::hex(id.as_slice())
}

/// Whether `lease_id` is 32 hexadecimal digits.
pub fn is_lease_id(lease_id: &str) -> (r: bool)
    ensures
        r == names_a_window(lease_id@),
{
    let v = text::chars_of(lease_id);
    if v.len() != LEASE_ID_HEX_CHARS {
        return false;
    }
    let mut i: usize = 0;
    while i < v.len()
        invariant
            i <= v.len(),
            v@ == lease_id@,
            forall|k: int| 0 <= k < i ==> is_hex_char(#[trigger] lease_id@[k]),
        decreases v.len() - i,
    {
        let c: char = v[i];
        if !(('0' <= c && c <= '9') || ('a' <= c && c <= 'f') || ('A' <= c && c <= 'F')) {
            assert(!is_hex_char(lease_id@[i as int]));
            return false;
        }
        i += 1;
    }
    true
}

/// The only capabilities that the remote lease-control path is given: it may see
/// which windows are open, and it may close one. It may never open one, extend
/// one, or read what one holds.
pub trait LeaseControl {
    /// Active windows, newest first.
    fn list(&mut self) -> Vec<LeaseInfo>;

    /// Close exactly the window named by this opaque id.
    fn revoke_id(&mut self, lease_id: &str) -> bool;
}

/// All active leases, in memory only. No key and binding has two of them.
pub struct LeaseStore {
    start: Instant,
    leases: Vec<Lease>,
}

impl View for LeaseStore {
    type V = Seq<LeaseView>;

    closed spec fn view(&self) -> Seq<LeaseView> {
        lists::views(self.leases@)
    }
}

impl LeaseStore {
    #[verifier::type_invariant]
    spec fn windows_differ(self) -> bool {
        sound(lists::views(self.leases@))
    }

    /// A store without leases.
    pub fn new() -> (r: LeaseStore)
        ensures
            r@.len() == 0,
            sound(r@),
    {
        LeaseStore { start: clock::start(), leases: Vec::new() }
    }

    /// The reading of the store's clock.
    pub fn reading(&self) -> (r: u128)
        ensures
            r < clock::READING_LIMIT,
    {
        clock::nanos_since(&self.start)
    }

    /// Keep the leases that `keep` keeps, in their order.
    fn retain<F: Fn(&Lease) -> bool>(&mut self, keep: F, Ghost(p): Ghost<spec_fn(LeaseView) -> bool>)
        requires
            forall|l: &Lease| keep.requires((l,)),
            forall|l: &Lease, b: bool| keep.ensures((l,), b) ==> b == p(l@),
        ensures
            final(self)@ == old(self)@.filter(p),
            final(self)@.len() <= old(self)@.len(),
            sound(old(self)@) && sound(final(self)@),
    {
        proof {
            use_type_invariant(&*self);
            filter_keeps_sound(self@, p);
            lists::filter_members(self@, p);
        }
        let mut leases: Vec<Lease> = Vec::new();
        std::mem::swap(&mut leases, &mut self.leases);
        lists::retain(&mut leases, keep, Ghost(p));
        self.leases = leases;
    }

    /// Drop the leases that have run out at `now`.
    pub fn purge_at(&mut self, now: u128)
        ensures
            final(self)@ == live(old(self)@, now as int),
            sound(old(self)@) && sound(final(self)@),
    {
        let keep = |l: &Lease| -> (b: bool)
            ensures
                b == (l@.expires > now),
            { l.expires > now };
        self.retain(keep, Ghost(|l: LeaseView| l.expires > now));
    }

    fn find(&self, grant: &[u8; 32], binding: &LeaseBinding) -> (r: usize)
        ensures
            r == lists::first_where(self@, answers(grant@, binding@)),
            r <= self@.len(),
            self@.len() == self.leases.len(),
    {
        let ghost p = answers(grant@, binding@);
        let mut i: usize = 0;
        while i < self.leases.len()
            invariant
                i <= self.leases.len(),
                p == answers(grant@, binding@),
                forall|k: int| 0 <= k < i ==> !p(#[trigger] self@[k]),
            decreases self.leases.len() - i,
        {
            let l = &self.leases[i];
            if bytes::same_key(&l.grant, grant) && l.binding.same(binding) {
                assert(p(self@[i as int]));
                proof {
                    lists::first_where_is(self@, p, i as int);
                }
                return i;
            }
            assert(!p(self@[i as int]));
            i += 1;
        }
        proof {
            lists::first_where_is(self@, p, i as int);
        }
        i
    }

    /// Grant (or refresh) a lease at the clock reading `now`; a new window gets
    /// `id`. A refresh keeps the window's id and its opening time.
    pub fn grant_at(
        &mut self,
        now: u128,
        id: [u8; 16],
        grant: [u8; 32],
        binding: &LeaseBinding,
        covers: &str,
        token: Token,
        ttl: Span,
    )
        requires
            now + ttl.nanos <= u128::MAX,
        ensures
            final(self)@ == granted(
                old(self)@,
                now as int,
                id@,
                (GrantView {
                    grant: grant@,
                    binding: binding@,
                    covers: covers@,
                    token: token@,
                    ttl: ttl.nanos as int,
                }),
            ),
            sound(old(self)@) && sound(final(self)@),
    {
        let ghost asked = GrantView {
            grant: grant@,
            binding: binding@,
            covers: covers@,
            token: token@,
            ttl: ttl.nanos as int,
        };
        self.purge_at(now);
        proof {
            a_grant_keeps_sound(old(self)@, now as int, id@, asked);
        }
        let ghost l = self@;
        let at: usize = self.find(&grant, binding);
        let mut leases: Vec<Lease> = Vec::new();
        std::mem::swap(&mut leases, &mut self.leases);
        if at < leases.len() {
            let old_lease = leases.remove(at);
            let fresh = Lease {
                grant: old_lease.grant,
                id: old_lease.id,
                binding: old_lease.binding,
                covers: covers.to_owned(),
                token,
                granted: old_lease.granted,
                expires: now + ttl.nanos,
            };
            let ghost shown = fresh@;
            assert(old_lease@ == l[at as int]);
            leases.insert(at, fresh);
            assert(lists::views(leases@) =~= l.update(at as int, shown));
        } else {
            let fresh = Lease {
                grant,
                id,
                binding: binding.duplicate(),
                covers: covers.to_owned(),
                token,
                granted: now,
                expires: now + ttl.nanos,
            };
            let ghost shown = fresh@;
            leases.push(fresh);
            assert(lists::views(leases@) =~= l.push(shown));
        }
        self.leases = leases;
    }

    /// Grant (or refresh) a lease for `grant` and `binding` with `ttl`. A refresh
    /// replaces the cached token and the coverage label; the label never takes
    /// part in the match.
    pub fn grant(
        &mut self,
        grant: [u8; 32],
        binding: &LeaseBinding,
        covers: &str,
        token: Token,
        ttl: Span,
    )
        requires
            ttl.nanos + clock::READING_LIMIT <= u128::MAX,
        ensures
            exists|now: int, id: Seq<u8>|
                #![trigger granted(
                    old(self)@,
                    now,
                    id,
                    GrantView {
                        grant: grant@,
                        binding: binding@,
                        covers: covers@,
                        token: token@,
                        ttl: ttl.nanos as int,
                    },
                )]
                {
                    &&& 0 <= now < clock::READING_LIMIT
                    &&& id.len() == 16
                    &&& final(self)@ == granted(
                        old(self)@,
                        now,
                        id,
                        GrantView {
                            grant: grant@,
                            binding: binding@,
                            covers: covers@,
                            token: token@,
                            ttl: ttl.nanos as int,
                        },
                    )
                },
            sound(old(self)@) && sound(final(self)@),
    {
        let now: u128 = self.reading();
        let id = new_lease_id();
        assert(id@.len() == 16);
        self.grant_at(now, id, grant, binding, covers, token, ttl);
    }

    /// The token of a live lease that matches at the clock reading `now`.
    /// Leases that have run out are dropped.
    pub fn token_for_at(&mut self, now: u128, grant: &[u8; 32], binding: &LeaseBinding) -> (r:
        Option<Token>)
        ensures
            sound(old(self)@) && sound(final(self)@),
            final(self)@ == live(old(self)@, now as int),
            match r {
                Some(t) => looked_up(old(self)@, now as int, grant@, binding@) == Some(t@),
                None => looked_up(old(self)@, now as int, grant@, binding@) is None,
            },
    {
        self.purge_at(now);
        let at: usize = self.find(grant, binding);
        if at < self.leases.len() {
            Some(self.leases[at].token.duplicate())
        } else {
            None
        }
    }

    /// The token of a live lease that matches `grant` and all four legs of
    /// `binding`, if any. Leases that have run out are dropped.
    pub fn token_for(&mut self, grant: &[u8; 32], binding: &LeaseBinding) -> (r: Option<Token>)
        ensures
            sound(old(self)@) && sound(final(self)@),
            exists|now: int|
                #![trigger live(old(self)@, now)]
                {
                    &&& 0 <= now < clock::READING_LIMIT
                    &&& final(self)@ == live(old(self)@, now)
                    &&& match r {
                        Some(t) => looked_up(old(self)@, now, grant@, binding@) == Some(t@),
                        None => looked_up(old(self)@, now, grant@, binding@) is None,
                    }
                },
    {
        let now: u128 = self.reading();
        self.token_for_at(now, grant, binding)
    }

    /// The live leases at the clock reading `now`, newest first. Leases that have
    /// run out are dropped.
    pub fn list_at(&mut self, now: u128) -> (r: Vec<LeaseInfo>)
        ensures
            sound(old(self)@) && sound(final(self)@),
            final(self)@ == live(old(self)@, now as int),
            lists::views(r@) == shown(old(self)@, now as int),
    {
        self.purge_at(now);
        let mut out: Vec<LeaseInfo> = Vec::new();
        let mut i: usize = 0;
        while i < self.leases.len()
            invariant
                i <= self.leases.len(),
                out.len() == i,
                forall|k: int|
                    0 <= k < i ==> (#[trigger] out@[k])@ == info_of(self@[k], now as int),
            decreases self.leases.len() - i,
        {
            let l = &self.leases[i];
            let info = LeaseInfo {
                grant_hex: hex32(&l.grant),
                lease_id: hex16(&l.id),
                account: l.binding.account.clone(),
                scope: l.binding.scope.clone(),
                covers: l.covers.clone(),
                remaining: Span { nanos: l.expires.saturating_sub(now) },
                age: Span { nanos: now.saturating_sub(l.granted) },
            };
            assert(info@ =~= info_of(self@[i as int], now as int));
            out.push(info);
            i += 1;
        }
        let ghost l = live(old(self)@, now as int);
        assert(lists::views(out@) =~= Seq::new(l.len(), |i: int| info_of(l[i], now as int)));
        let by_age = |i: &LeaseInfo| -> (n: u128)
            ensures
                n == i@.age,
            { i.age.nanos };
        lists::sort_by_key(out, by_age, Ghost(|i: InfoView| i.age))
    }

    /// The active leases, newest first. Leases that have run out are dropped.
    pub fn list(&mut self) -> (r: Vec<LeaseInfo>)
        ensures
            sound(old(self)@) && sound(final(self)@),
            exists|now: int|
                #![trigger live(old(self)@, now)]
                {
                    &&& 0 <= now < clock::READING_LIMIT
                    &&& final(self)@ == live(old(self)@, now)
                    &&& lists::views(r@) == shown(old(self)@, now)
                },
    {
        let now: u128 = self.reading();
        self.list_at(now)
    }

    /// Revoke every lease whose grant key in hex starts with `prefix`. Returns
    /// how many there were.
    pub fn revoke(&mut self, prefix: &str) -> (r: usize)
        ensures
            sound(old(self)@) && sound(final(self)@),
            final(self)@ == without_prefix(old(self)@, prefix@),
            r == old(self)@.len() - final(self)@.len(),
    {
        let before: usize = self.leases.len();
        let keep = |l: &Lease| -> (b: bool)
            ensures
                b == !prefix@.is_prefix_of(bytes::hex_of(l@.grant)),
            {
                let h = hex32(&l.grant);
                !text::starts_with(h.as_str(), prefix)
            };
        self.retain(
            keep,
            Ghost(|l: LeaseView| !prefix@.is_prefix_of(bytes::hex_of(l.grant))),
        );
        before - self.leases.len()
    }

    /// Revoke the live lease whose id is exactly `lease_id`, at the clock reading
    /// `now`. Anything but 32 hexadecimal digits names no window and touches
    /// nothing.
    pub fn revoke_id_at(&mut self, now: u128, lease_id: &str) -> (r: bool)
        ensures
            sound(old(self)@) && sound(final(self)@),
            !names_a_window(lease_id@) ==> !r && final(self)@ == old(self)@,
            names_a_window(lease_id@) ==> {
                &&& final(self)@ == without_id(live(old(self)@, now as int), lease_id@)
                &&& r == (final(self)@.len() < live(old(self)@, now as int).len())
            },
    {
        proof {
            use_type_invariant(&*self);
        }
        if !is_lease_id(lease_id) {
            return false;
        }
        self.purge_at(now);
        let before: usize = self.leases.len();
        let keep = |l: &Lease| -> (b: bool)
            ensures
                b == (bytes::hex_of(l@.id) != lease_id@),
            {
                let h = hex16(&l.id);
                !text::same(h.as_str(), lease_id)
            };
        self.retain(
            keep,
            Ghost(|l: LeaseView| bytes::hex_of(l.id) != lease_id@),
        );
        before != self.leases.len()
    }

    /// Revoke the one live lease whose id is exactly `lease_id`. Returns whether
    /// there was one. This is the remote path: exact, never a prefix, and keyed
    /// on the id, never on the grant key.
    pub fn revoke_id(&mut self, lease_id: &str) -> (r: bool)
        ensures
            sound(old(self)@) && sound(final(self)@),
            !names_a_window(lease_id@) ==> !r && final(self)@ == old(self)@,
            names_a_window(lease_id@) ==> exists|now: int|
                #![trigger live(old(self)@, now)]
                {
                    &&& 0 <= now < clock::READING_LIMIT
                    &&& final(self)@ == without_id(live(old(self)@, now), lease_id@)
                    &&& r == (final(self)@.len() < live(old(self)@, now).len())
                },
    {
        let now: u128 = self.reading();
        self.revoke_id_at(now, lease_id)
    }

    /// Revoke every lease whose scope is exactly `scope`. Returns how many there
    /// were.
    pub fn revoke_scope(&mut self, scope: &str) -> (r: usize)
        ensures
            sound(old(self)@) && sound(final(self)@),
            final(self)@ == without_scope(old(self)@, scope@),
            r == old(self)@.len() - final(self)@.len(),
    {
        let before: usize = self.leases.len();
        let keep = |l: &Lease| -> (b: bool)
            ensures
                b == (l@.binding.scope != scope@),
            { !text::same(l.binding.scope.as_str(), scope) };
        self.retain(
            keep,
            Ghost(|l: LeaseView| l.binding.scope != scope@),
        );
        before - self.leases.len()
    }

    /// Drop every lease. Returns how many there were.
    pub fn clear(&mut self) -> (r: usize)
        ensures
            sound(old(self)@) && sound(final(self)@),
            final(self)@.len() == 0,
            r == old(self)@.len(),
    {
        proof {
            use_type_invariant(&*self);
        }
        let n: usize = self.leases.len();
        self.leases = Vec::new();
        n
    }

    /// How many leases are live at the clock reading `now`. Leases that have run
    /// out are dropped.
    pub fn active_at(&mut self, now: u128) -> (r: usize)
        ensures
            sound(old(self)@) && sound(final(self)@),
            final(self)@ == live(old(self)@, now as int),
            r == final(self)@.len(),
    {
        self.purge_at(now);
        self.leases.len()
    }

    /// How many leases are active. Leases that have run out are dropped.
    pub fn active(&mut self) -> (r: usize)
        ensures
            sound(old(self)@) && sound(final(self)@),
            exists|now: int|
                0 <= now < clock::READING_LIMIT && final(self)@ == #[trigger] live(old(self)@, now),
            r == final(self)@.len(),
    {
        let now: u128 = self.reading();
        self.active_at(now)
    }
}

impl LeaseControl for LeaseStore {
    fn list(&mut self) -> (r: Vec<LeaseInfo>)
        ensures
            sound(old(self)@) && sound(final(self)@),
            exists|now: int|
                #![trigger live(old(self)@, now)]
                final(self)@ == live(old(self)@, now) && lists::views(r@) == shown(
                    old(self)@,
                    now,
                ),
    {
        LeaseStore::list(self)
    }

    fn revoke_id(&mut self, lease_id: &str) -> (r: bool)
        ensures
            sound(old(self)@) && sound(final(self)@),
            !names_a_window(lease_id@) ==> !r && final(self)@ == old(self)@,
            names_a_window(lease_id@) ==> exists|now: int|
                #![trigger live(old(self)@, now)]
                {
                    &&& final(self)@ == without_id(live(old(self)@, now), lease_id@)
                    &&& r == (final(self)@.len() < live(old(self)@, now).len())
                },
    {
        LeaseStore::revoke_id(self, lease_id)
    }
}

/// A lookup gives back what a grant stored, for as long as the window lasts.
pub proof fn lookup_gives_back_the_grant(
    s: Seq<LeaseView>,
    now: int,
    id: Seq<u8>,
    g: GrantView,
    later: int,
)
    requires
        now <= later < now + g.ttl,
    ensures
        looked_up(granted(s, now, id, g), later, g.grant, g.binding) == Some(g.token),
{
    let l = live(s, now);
    let p = answers(g.grant, g.binding);
    let q = |l: LeaseView| l.expires > later;
    let after = granted(s, now, id, g);
    lists::first_where_is_first(l, p);
    let at = lists::first_where(l, p);
    lists::first_where_is(after, p, at);
    lists::first_survives_filter(after, p, q);
}

/// Nothing is served but the token of a lease that is live, was granted for this
/// very key, and agrees on account, scope, source and config generation.
pub proof fn only_a_live_matching_lease_is_served(
    s: Seq<LeaseView>,
    now: int,
    grant: Seq<u8>,
    binding: BindingView,
)
    requires
        looked_up(s, now, grant, binding) is Some,
    ensures
        exists|i: int|
            0 <= i < s.len() && (#[trigger] s[i]).grant == grant && s[i].binding == binding
                && s[i].expires > now && looked_up(s, now, grant, binding) == Some(s[i].token),
{
    let l = live(s, now);
    let p = answers(grant, binding);
    lists::first_where_is_first(l, p);
    let x = l[lists::first_where(l, p)];
    lists::filter_members(s, |l: LeaseView| l.expires > now);
    assert(l.contains(x));
    let i = s.index_of(x);
    assert(s[i] == x);
}

/// Once its time is over, a window is never served again, and neither is one
/// whose time ends at this very reading.
pub proof fn an_expired_lease_is_never_served(
    s: Seq<LeaseView>,
    now: int,
    grant: Seq<u8>,
    binding: BindingView,
)
    requires
        forall|i: int|
            0 <= i < s.len() && (#[trigger] s[i]).grant == grant && s[i].binding == binding
                ==> s[i].expires <= now,
    ensures
        looked_up(s, now, grant, binding) is None,
{
    if looked_up(s, now, grant, binding) is Some {
        only_a_live_matching_lease_is_served(s, now, grant, binding);
    }
}

/// What holds of every store: at most one window for each key and binding, and
/// keys and ids of their full width.
pub open spec fn sound(s: Seq<LeaseView>) -> bool {
    &&& one_window_each(s)
    &&& forall|i: int| 0 <= i < s.len() ==> (#[trigger] s[i]).grant.len() == 32 && s[i].id.len() == 16
}

/// The store holds at most one window for each key and binding.
pub open spec fn one_window_each(s: Seq<LeaseView>) -> bool {
    forall|i: int, j: int|
        0 <= i < j < s.len() ==> !((#[trigger] s[i]).grant == (#[trigger] s[j]).grant
            && s[i].binding == s[j].binding)
}

proof fn filter_keeps_one_window_each(s: Seq<LeaseView>, q: spec_fn(LeaseView) -> bool)
    requires
        one_window_each(s),
    ensures
        one_window_each(s.filter(q)),
{
    let apart = |a: LeaseView, b: LeaseView| !(a.grant == b.grant && a.binding == b.binding);
    assert forall|i: int, j: int| 0 <= i < j < s.len() implies apart(
        #[trigger] s[i],
        #[trigger] s[j],
    ) by {}
    lists::filter_keeps_apart(s, q, apart);
    assert forall|i: int, j: int| 0 <= i < j < s.filter(q).len() implies !((#[trigger] s.filter(
        q,
    )[i]).grant == (#[trigger] s.filter(q)[j]).grant && s.filter(q)[i].binding == s.filter(
        q,
    )[j].binding) by {
        assert(apart(s.filter(q)[i], s.filter(q)[j]));
    }
}

proof fn filter_keeps_sound(s: Seq<LeaseView>, q: spec_fn(LeaseView) -> bool)
    requires
        sound(s),
    ensures
        sound(s.filter(q)),
{
    filter_keeps_one_window_each(s, q);
    lists::filter_members(s, q);
    let f = s.filter(q);
    assert forall|i: int| 0 <= i < f.len() implies (#[trigger] f[i]).grant.len() == 32
        && f[i].id.len() == 16 by {
        assert(f.contains(f[i]));
        let k = s.index_of(f[i]);
        assert(s[k] == f[i]);
    }
}

proof fn a_grant_keeps_sound(s: Seq<LeaseView>, now: int, id: Seq<u8>, g: GrantView)
    requires
        sound(s),
        id.len() == 16,
        g.grant.len() == 32,
    ensures
        sound(granted(s, now, id, g)),
{
    every_operation_keeps_one_window_each(s, now, id, g, Seq::empty());
    filter_keeps_sound(s, |l: LeaseView| l.expires > now);
    let l = live(s, now);
    lists::first_where_is_first(l, answers(g.grant, g.binding));
    let after = granted(s, now, id, g);
    assert forall|i: int| 0 <= i < after.len() implies (#[trigger] after[i]).grant.len() == 32
        && after[i].id.len() == 16 by {
        if i < l.len() {
            assert(l[i].grant.len() == 32);
        }
    }
}

/// No operation opens a second window for a key and binding that has one.
pub proof fn every_operation_keeps_one_window_each(
    s: Seq<LeaseView>,
    now: int,
    id: Seq<u8>,
    g: GrantView,
    name: Seq<char>,
)
    requires
        one_window_each(s),
    ensures
        one_window_each(granted(s, now, id, g)),
        one_window_each(live(s, now)),
        one_window_each(without_id(live(s, now), name)),
        one_window_each(without_scope(s, name)),
        one_window_each(without_prefix(s, name)),
{
    filter_keeps_one_window_each(s, |l: LeaseView| l.expires > now);
    let l = live(s, now);
    filter_keeps_one_window_each(l, |l: LeaseView| bytes::hex_of(l.id) != name);
    filter_keeps_one_window_each(s, |l: LeaseView| l.binding.scope != name);
    filter_keeps_one_window_each(
        s,
        |l: LeaseView| !name.is_prefix_of(bytes::hex_of(l.grant)),
    );
    let p = answers(g.grant, g.binding);
    lists::first_where_is_first(l, p);
    let after = granted(s, now, id, g);
    assert forall|i: int, j: int| 0 <= i < j < after.len() implies !((#[trigger] after[i]).grant
        == (#[trigger] after[j]).grant && after[i].binding == after[j].binding) by {
        if j < l.len() {
            assert(!(l[i].grant == l[j].grant && l[i].binding == l[j].binding));
        } else {
            assert(!p(l[i]));
        }
    }
}

/// A grant touches one window. Every other that still lasts stays as it is and none
/// joins; under the key and binding that were asked for there is one with the token,
/// the label and the time of the grant. It keeps the id and the opening time of the
/// one that it refreshes, and where there was none to refresh it has the new id and
/// opens now.
pub proof fn a_grant_touches_one_window(
    s: Seq<LeaseView>,
    now: int,
    id: Seq<u8>,
    g: GrantView,
    x: LeaseView,
)
    ensures
        !(x.grant == g.grant && x.binding == g.binding) ==> (granted(s, now, id, g).contains(x)
            <==> s.contains(x) && x.expires > now),
        exists|i: int|
            0 <= i < granted(s, now, id, g).len() && (#[trigger] granted(s, now, id, g)[i]).grant
                == g.grant && granted(s, now, id, g)[i].binding == g.binding && granted(
                s,
                now,
                id,
                g,
            )[i].token == g.token && granted(s, now, id, g)[i].covers == g.covers && granted(
                s,
                now,
                id,
                g,
            )[i].expires == now + g.ttl && ((granted(s, now, id, g)[i].id == id && granted(
                s,
                now,
                id,
                g,
            )[i].granted == now) || exists|j: int|
                0 <= j < s.len() && (#[trigger] s[j]).grant == g.grant && s[j].binding == g.binding
                    && s[j].expires > now && s[j].id == granted(s, now, id, g)[i].id && s[j].granted
                    == granted(s, now, id, g)[i].granted),
{
    let l = live(s, now);
    let p = answers(g.grant, g.binding);
    let after = granted(s, now, id, g);
    lists::first_where_is_first(l, p);
    lists::filter_members(s, |l: LeaseView| l.expires > now);
    let at = lists::first_where(l, p);
    if at < l.len() {
        assert(p(l[at]));
        assert(l.contains(l[at]));
        let j = s.index_of(l[at]);
        assert(s[j] == l[at] && s.contains(s[j]));
        assert(s[j].expires > now);
    }
    assert(after[at].token == g.token);
    if !(x.grant == g.grant && x.binding == g.binding) {
        if after.contains(x) {
            let k = after.index_of(x);
            assert(k != at);
            assert(l[k] == x);
            assert(l.contains(x));
        }
        if l.contains(x) {
            let k = l.index_of(x);
            assert(k != at) by {
                if k == at {
                    assert(p(l[at]));
                }
            }
            assert(after[k] == x);
        }
    }
}

/// A window ends when its time is up, also where the grant refreshed a longer one:
/// from that reading on nothing is served under its key and binding.
pub proof fn a_window_ends_when_its_time_is_up(
    s: Seq<LeaseView>,
    now: int,
    id: Seq<u8>,
    g: GrantView,
    later: int,
)
    requires
        one_window_each(s),
        later >= now + g.ttl,
    ensures
        looked_up(granted(s, now, id, g), later, g.grant, g.binding) is None,
{
    let after = granted(s, now, id, g);
    every_operation_keeps_one_window_each(s, now, id, g, Seq::empty());
    let l = live(s, now);
    let p = answers(g.grant, g.binding);
    lists::first_where_is_first(l, p);
    let at = lists::first_where(l, p);
    assert forall|i: int|
        0 <= i < after.len() && (#[trigger] after[i]).grant == g.grant && after[i].binding
            == g.binding implies after[i].expires <= later by {
        assert(after[at].grant == g.grant && after[at].binding == g.binding) by {
            if at < l.len() {
                assert(p(l[at]));
            }
        }
        if i < at {
            assert(!(after[i].grant == after[at].grant && after[i].binding == after[at].binding));
        } else if at < i {
            assert(!(after[at].grant == after[i].grant && after[at].binding == after[i].binding));
        }
    }
    an_expired_lease_is_never_served(after, later, g.grant, g.binding);
}

/// The list shows every live window once and nothing else, the youngest first, each
/// with its own key, id, account, rule and label, the time that is left of it and
/// the time since it was opened.
pub proof fn the_list_shows_every_live_window(s: Seq<LeaseView>, now: int, i: int)
    requires
        0 <= i < s.len(),
        s[i].expires > now,
        s[i].granted <= now,
    ensures
        shown(s, now).len() == live(s, now).len(),
        forall|a: int, b: int|
            0 <= a < b < shown(s, now).len() ==> (#[trigger] shown(s, now)[a]).age <= (
            #[trigger] shown(s, now)[b]).age,
        exists|k: int|
            0 <= k < shown(s, now).len() && bytes::hex_bytes(
                (#[trigger] shown(s, now)[k]).grant_hex,
            ) == s[i].grant && bytes::hex_bytes(shown(s, now)[k].lease_id) == s[i].id && shown(
                s,
                now,
            )[k].account == s[i].binding.account && shown(s, now)[k].scope == s[i].binding.scope
                && shown(s, now)[k].covers == s[i].covers && shown(s, now)[k].remaining
                == s[i].expires - now && shown(s, now)[k].age == now - s[i].granted,
{
    let l = live(s, now);
    let rows = Seq::new(l.len(), |i: int| info_of(l[i], now));
    let key = |i: InfoView| i.age;
    lists::sorted_by_sorts(rows, key);
    let out = lists::sorted_by(rows, key);
    assert forall|a: int, b: int| 0 <= a < b < out.len() implies (#[trigger] out[a]).age <= (
    #[trigger] out[b]).age by {
        assert(key(out[a]) <= key(out[b]));
    }
    lists::filter_members(s, |l: LeaseView| l.expires > now);
    assert(s.contains(s[i]));
    assert(l.contains(s[i]));
    let j = l.index_of(s[i]);
    let row = rows[j];
    assert(row == info_of(s[i], now));
    rows.to_multiset_ensures();
    out.to_multiset_ensures();
    assert(rows.contains(row));
    assert(rows.to_multiset().count(row) > 0);
    assert(out.to_multiset().count(row) > 0);
    assert(out.contains(row));
    let k = out.index_of(row);
    assert(out[k] == row);
    bytes::hex_reads_back(s[i].grant);
    bytes::hex_reads_back(s[i].id);
}

/// Revoking by a prefix of the key's hex ends exactly the windows whose key starts
/// with it, revoking by rule exactly those of the rule, and the clock exactly those
/// whose time is up.
pub proof fn a_revocation_ends_what_it_names(
    s: Seq<LeaseView>,
    now: int,
    name: Seq<char>,
    x: LeaseView,
)
    ensures
        without_prefix(s, name).contains(x) <==> s.contains(x) && !(name.len() <= bytes::hex_of(
            x.grant,
        ).len() && bytes::hex_of(x.grant).take(name.len() as int) == name),
        without_scope(s, name).contains(x) <==> s.contains(x) && x.binding.scope != name,
        live(s, now).contains(x) <==> s.contains(x) && x.expires > now,
{
    lists::filter_members(s, |l: LeaseView| !name.is_prefix_of(bytes::hex_of(l.grant)));
    lists::filter_members(s, |l: LeaseView| l.binding.scope != name);
    lists::filter_members(s, |l: LeaseView| l.expires > now);
    let h = bytes::hex_of(x.grant);
    if name.len() <= h.len() {
        assert(h.take(name.len() as int) =~= h.subrange(0, name.len() as int));
    }
}

/// No two windows have one id.
pub open spec fn ids_differ(s: Seq<LeaseView>) -> bool {
    forall|i: int, j: int| 0 <= i < j < s.len() ==> (#[trigger] s[i]).id != (#[trigger] s[j]).id
}

/// No window has this id yet.
pub open spec fn id_is_free(s: Seq<LeaseView>, id: Seq<u8>) -> bool {
    forall|i: int| 0 <= i < s.len() ==> (#[trigger] s[i]).id != id
}

proof fn filter_keeps_ids_apart(s: Seq<LeaseView>, q: spec_fn(LeaseView) -> bool)
    requires
        ids_differ(s),
    ensures
        ids_differ(s.filter(q)),
{
    let apart = |a: LeaseView, b: LeaseView| a.id != b.id;
    assert forall|i: int, j: int| 0 <= i < j < s.len() implies apart(
        #[trigger] s[i],
        #[trigger] s[j],
    ) by {}
    lists::filter_keeps_apart(s, q, apart);
    let f = s.filter(q);
    assert forall|i: int, j: int| 0 <= i < j < f.len() implies (#[trigger] f[i]).id != (
    #[trigger] f[j]).id by {
        assert(apart(f[i], f[j]));
    }
}

/// An id names one window: as long as a new window gets an id that none has, no
/// operation makes two windows share one.
pub proof fn a_fresh_id_names_one_window(
    s: Seq<LeaseView>,
    now: int,
    id: Seq<u8>,
    g: GrantView,
    name: Seq<char>,
)
    requires
        ids_differ(s),
        id_is_free(s, id),
    ensures
        ids_differ(granted(s, now, id, g)),
        ids_differ(live(s, now)),
        ids_differ(without_id(live(s, now), name)),
        ids_differ(without_scope(s, name)),
        ids_differ(without_prefix(s, name)),
{
    filter_keeps_ids_apart(s, |l: LeaseView| l.expires > now);
    let l = live(s, now);
    filter_keeps_ids_apart(l, |l: LeaseView| bytes::hex_of(l.id) != name);
    filter_keeps_ids_apart(s, |l: LeaseView| l.binding.scope != name);
    filter_keeps_ids_apart(s, |l: LeaseView| !name.is_prefix_of(bytes::hex_of(l.grant)));
    lists::filter_members(s, |l: LeaseView| l.expires > now);
    lists::first_where_is_first(l, answers(g.grant, g.binding));
    let after = granted(s, now, id, g);
    assert forall|i: int, j: int| 0 <= i < j < after.len() implies (#[trigger] after[i]).id != (
    #[trigger] after[j]).id by {
        if j < l.len() {
            assert(l[i].id != l[j].id);
        } else {
            assert(l.contains(l[i]));
            let k = s.index_of(l[i]);
            assert(s[k].id != id);
        }
    }
}

/// Every window was opened by then.
pub open spec fn opened_by(s: Seq<LeaseView>, now: int) -> bool {
    forall|i: int| 0 <= i < s.len() ==> (#[trigger] s[i]).granted <= now
}

proof fn filter_keeps_opened(s: Seq<LeaseView>, q: spec_fn(LeaseView) -> bool, now: int)
    requires
        opened_by(s, now),
    ensures
        opened_by(s.filter(q), now),
{
    lists::filter_members(s, q);
    let f = s.filter(q);
    assert forall|i: int| 0 <= i < f.len() implies (#[trigger] f[i]).granted <= now by {
        assert(f.contains(f[i]));
        let k = s.index_of(f[i]);
        assert(s[k] == f[i]);
    }
}

/// No window is opened ahead of its time: as long as the readings that are passed
/// in do not go back, every window was opened at or before the last of them.
pub proof fn no_window_opens_ahead_of_its_time(
    s: Seq<LeaseView>,
    before: int,
    now: int,
    id: Seq<u8>,
    g: GrantView,
    name: Seq<char>,
)
    requires
        opened_by(s, before),
        before <= now,
    ensures
        opened_by(granted(s, now, id, g), now),
        opened_by(live(s, now), now),
        opened_by(without_id(live(s, now), name), now),
        opened_by(without_scope(s, name), now),
        opened_by(without_prefix(s, name), now),
{
    filter_keeps_opened(s, |l: LeaseView| l.expires > now, now);
    let l = live(s, now);
    filter_keeps_opened(l, |l: LeaseView| bytes::hex_of(l.id) != name, now);
    filter_keeps_opened(s, |l: LeaseView| l.binding.scope != name, now);
    filter_keeps_opened(s, |l: LeaseView| !name.is_prefix_of(bytes::hex_of(l.grant)), now);
    lists::first_where_is_first(l, answers(g.grant, g.binding));
    let after = granted(s, now, id, g);
    assert forall|i: int| 0 <= i < after.len() implies (#[trigger] after[i]).granted <= now by {
        if i < l.len() {
            assert(l[i].granted <= now);
        }
    }
}

/// A refresh extends the window that is open: it opens no other, keeps the
/// window's id and opening time, and leaves every other window as it was.
pub proof fn a_refresh_keeps_the_window(
    s: Seq<LeaseView>,
    now: int,
    id: Seq<u8>,
    g: GrantView,
    at: int,
)
    requires
        one_window_each(s),
        0 <= at < live(s, now).len(),
        live(s, now)[at].grant == g.grant,
        live(s, now)[at].binding == g.binding,
    ensures
        granted(s, now, id, g).len() == live(s, now).len(),
        granted(s, now, id, g)[at].id == live(s, now)[at].id,
        granted(s, now, id, g)[at].granted == live(s, now)[at].granted,
        granted(s, now, id, g)[at].expires == now + g.ttl,
        forall|i: int|
            0 <= i < live(s, now).len() && i != at ==> #[trigger] granted(s, now, id, g)[i] == live(
                s,
                now,
            )[i],
{
    filter_keeps_one_window_each(s, |l: LeaseView| l.expires > now);
    let l = live(s, now);
    let p = answers(g.grant, g.binding);
    assert(p(l[at]));
    lists::first_where_is_first(l, p);
    let f = lists::first_where(l, p);
    assert(p(l[f]));
    if f < at {
        assert(!(l[f].grant == l[at].grant && l[f].binding == l[at].binding));
    }
}

/// The coverage label never takes part in a lookup: grants that differ in it
/// alone serve the same runs the same secrets.
pub proof fn a_label_changes_no_lookup(
    s: Seq<LeaseView>,
    now: int,
    id: Seq<u8>,
    g: GrantView,
    label: Seq<char>,
    later: int,
    grant: Seq<u8>,
    binding: BindingView,
)
    ensures
        looked_up(granted(s, now, id, g), later, grant, binding) == looked_up(
            granted(
                s,
                now,
                id,
                GrantView {
                    grant: g.grant,
                    binding: g.binding,
                    covers: label,
                    token: g.token,
                    ttl: g.ttl,
                },
            ),
            later,
            grant,
            binding,
        ),
{
    let h = GrantView {
        grant: g.grant,
        binding: g.binding,
        covers: label,
        token: g.token,
        ttl: g.ttl,
    };
    let a = granted(s, now, id, g);
    let b = granted(s, now, id, h);
    lists::first_where_is_first(live(s, now), answers(g.grant, g.binding));
    same_but_labels_look_alike(a, b, later, grant, binding);
}

/// Equal but for the label.
pub open spec fn same_but_label(a: LeaseView, b: LeaseView) -> bool {
    a.grant == b.grant && a.id == b.id && a.binding == b.binding && a.token == b.token && a.granted
        == b.granted && a.expires == b.expires
}

proof fn same_but_labels_look_alike(
    a: Seq<LeaseView>,
    b: Seq<LeaseView>,
    now: int,
    grant: Seq<u8>,
    binding: BindingView,
)
    requires
        a.len() == b.len(),
        forall|i: int| 0 <= i < a.len() ==> same_but_label(#[trigger] a[i], b[i]),
    ensures
        looked_up(a, now, grant, binding) == looked_up(b, now, grant, binding),
{
    same_but_labels_live_alike(a, b, now);
    let la = live(a, now);
    let lb = live(b, now);
    let p = answers(grant, binding);
    lists::first_where_is_first(la, p);
    let at = lists::first_where(la, p);
    assert forall|i: int| 0 <= i < at implies !p(#[trigger] lb[i]) by {
        assert(!p(la[i]));
        assert(same_but_label(la[i], lb[i]));
    }
    if at < la.len() {
        assert(same_but_label(la[at], lb[at]));
    }
    lists::first_where_is(lb, p, at);
}

proof fn same_but_labels_live_alike(a: Seq<LeaseView>, b: Seq<LeaseView>, now: int)
    requires
        a.len() == b.len(),
        forall|i: int| 0 <= i < a.len() ==> same_but_label(#[trigger] a[i], b[i]),
    ensures
        live(a, now).len() == live(b, now).len(),
        forall|i: int|
            0 <= i < live(a, now).len() ==> same_but_label(
                #[trigger] live(a, now)[i],
                live(b, now)[i],
            ),
    decreases a.len(),
{
    reveal(Seq::filter);
    if a.len() > 0 {
        let x = a.drop_last();
        let y = b.drop_last();
        assert forall|i: int| 0 <= i < x.len() implies same_but_label(#[trigger] x[i], y[i]) by {
            assert(same_but_label(a[i], b[i]));
        }
        same_but_labels_live_alike(x, y, now);
        assert(same_but_label(a[a.len() - 1], b[a.len() - 1]));
    }
}

/// Revoking by id ends exactly the windows with that id: every other live window
/// stays, and none is added.
pub proof fn revoke_id_ends_only_that_window(
    s: Seq<LeaseView>,
    now: int,
    id: Seq<u8>,
    x: LeaseView,
)
    ensures
        without_id(live(s, now), bytes::hex_of(id)).contains(x) <==> s.contains(x) && x.expires > now
            && x.id != id,
{
    let l = live(s, now);
    let name = bytes::hex_of(id);
    lists::filter_members(s, |l: LeaseView| l.expires > now);
    lists::filter_members(l, |l: LeaseView| bytes::hex_of(l.id) != name);
    if bytes::hex_of(x.id) == name {
        bytes::hex_reads_one_way(x.id, id);
    }
}

/// Once a scope is revoked, nothing is served under it, and revoking it again
/// changes nothing.
pub proof fn a_revoked_scope_serves_nothing(
    s: Seq<LeaseView>,
    now: int,
    grant: Seq<u8>,
    binding: BindingView,
)
    ensures
        looked_up(without_scope(s, binding.scope), now, grant, binding) is None,
        without_scope(without_scope(s, binding.scope), binding.scope) == without_scope(
            s,
            binding.scope,
        ),
        forall|x: LeaseView|
            without_scope(s, binding.scope).contains(x) <==> s.contains(x) && x.binding.scope
                != binding.scope,
{
    let keep = |l: LeaseView| l.binding.scope != binding.scope;
    let after = without_scope(s, binding.scope);
    lists::filter_members(s, keep);
    assert forall|i: int| 0 <= i < after.len() implies keep(#[trigger] after[i]) by {
        assert(after.contains(after[i]));
    }
    lists::filter_keeps_all(after, keep);
    if looked_up(after, now, grant, binding) is Some {
        only_a_live_matching_lease_is_served(after, now, grant, binding);
        let i = choose|i: int|
            0 <= i < after.len() && (#[trigger] after[i]).grant == grant && after[i].binding
                == binding && after[i].expires > now && looked_up(after, now, grant, binding)
                == Some(after[i].token);
        assert(keep(after[i]));
    }
}

/// An empty prefix matches every grant key, which is why the remote path never
/// revokes by prefix; an empty id names no window.
pub proof fn an_empty_name(s: Seq<LeaseView>)
    ensures
        without_prefix(s, Seq::empty()).len() == 0,
        !names_a_window(Seq::empty()),
{
    let keep = |l: LeaseView| !Seq::<char>::empty().is_prefix_of(bytes::hex_of(l.grant));
    lists::filter_members(s, keep);
    let after = without_prefix(s, Seq::empty());
    if after.len() > 0 {
        let x = after[0];
        assert(after.contains(x));
        assert(Seq::<char>::empty() =~= bytes::hex_of(x.grant).subrange(0, 0));
        assert(Seq::<char>::empty().is_prefix_of(bytes::hex_of(x.grant)));
    }
}

/// A window is named by its whole id in hex: every id names one, and nothing that is
/// shorter or longer, or that holds another character, names any.
pub proof fn a_window_is_named_by_its_whole_id(id: Seq<u8>, name: Seq<char>)
    requires
        id.len() == 16,
    ensures
        names_a_window(bytes::hex_of(id)),
        names_a_window(name) <==> name.len() == 32 && forall|i: int|
            0 <= i < name.len() ==> bytes::hex_value(#[trigger] name[i]) is Some,
{
    bytes::hex_reads_back(id);
    let h = bytes::hex_of(id);
    assert forall|i: int| 0 <= i < h.len() implies is_hex_char(#[trigger] h[i]) by {
        assert(bytes::hex_value(h[i]) is Some);
    }
    if name.len() == 32 && forall|i: int|
        0 <= i < name.len() ==> bytes::hex_value(#[trigger] name[i]) is Some {
        assert forall|i: int| 0 <= i < name.len() implies is_hex_char(#[trigger] name[i]) by {
            assert(bytes::hex_value(name[i]) is Some);
        }
    }
    if names_a_window(name) {
        assert forall|i: int| 0 <= i < name.len() implies bytes::hex_value(
            #[trigger] name[i],
        ) is Some by {
            assert(is_hex_char(name[i]));
        }
    }
}

} // verus!
