//! Requests to return a wrapped keystore to plaintext, waiting for the app.
use crate::text;
use vstd::prelude::*;
use vstd::string::*;

verus! {

/// Outstanding requests by their nonces, the last answer, and a number that moves
/// with every change.
pub struct UnwrapRequests {
    open: Vec<String>,
    version: u64,
    last: Option<(String, bool, String)>,
}

/// Outstanding requests as plain values.
#[verifier::ext_equal]
pub struct RequestsView {
    pub open: Seq<Seq<char>>,
    pub version: u64,
    pub last: Option<(Seq<char>, bool, Seq<char>)>,
}

impl View for UnwrapRequests {
    type V = RequestsView;

    closed spec fn view(&self) -> RequestsView {
        RequestsView {
            open: text::texts(self.open@),
            version: self.version,
            last: match self.last {
                Some((n, ok, why)) => Some((n@, ok, why@)),
                None => None,
            },
        }
    }
}

impl RequestsView {
    /// After a request under this nonce.
    pub open spec fn asked(self, nonce: Seq<char>) -> RequestsView {
        RequestsView { open: self.open.push(nonce), version: (self.version + 1) as u64, ..self }
    }

    /// After an answer to this nonce: the first outstanding request of that nonce
    /// is closed. Nothing changes where there is none.
    pub open spec fn answered(self, nonce: Seq<char>, ok: bool, why: Seq<char>) -> RequestsView {
        if self.open.contains(nonce) {
            RequestsView {
                open: self.open.remove(self.open.index_of_first(nonce)->0),
                version: (self.version + 1) as u64,
                last: Some((nonce, ok, why)),
            }
        } else {
            self
        }
    }
}

/// An event for the app: one per outstanding request.
#[derive(Debug, Clone, PartialEq, Eq)]
pub struct UnwrapEvent {
    pub kind: &'static str,
    pub nonce: String,
}

/// What a waiter does.
#[derive(Debug, Clone, PartialEq, Eq)]
pub enum Waiting {
    /// The answer is in.
    Answered { ok: bool, reason: String },
    /// The time is up.
    TimedOut,
    /// Wait for a change.
    Wait,
}

/// What a waiter does, as plain values.
#[verifier::ext_equal]
pub enum WaitingView {
    Answered { ok: bool, reason: Seq<char> },
    TimedOut,
    Wait,
}

impl View for Waiting {
    type V = WaitingView;

    open spec fn view(&self) -> WaitingView {
        match self {
            Waiting::Answered { ok, reason } => WaitingView::Answered {
                ok: *ok,
                reason: reason@,
            },
            Waiting::TimedOut => WaitingView::TimedOut,
            Waiting::Wait => WaitingView::Wait,
        }
    }
}

/// `uuid::Uuid::now_v7` as text. Nothing is claimed of it.
#[verifier::external_body]
pub(crate) fn fresh_id() -> String {
    uuid::Uuid::now_v7().to_string()
}

impl UnwrapRequests {
    /// Nothing outstanding.
    pub fn new() -> (r: UnwrapRequests)
        ensures
            r@ == (RequestsView { open: Seq::empty(), version: 0, last: None }),
    {
        let r = UnwrapRequests { open: Vec::new(), version: 0, last: None };
        assert(r@.open =~= Seq::empty());
        r
    }

    /// Ask the app to unwrap, under this nonce.
    pub fn request_as(&mut self, nonce: &str)
        requires
            old(self)@.version < u64::MAX,
        ensures
            final(self)@ == old(self)@.asked(nonce@),
    {
        self.open.push(nonce.to_owned());
        self.version = self.version + 1;
        assert(self@.open =~= old(self)@.open.push(nonce@));
    }

    /// Ask the app to unwrap. Gives the nonce that the answer must quote.
    pub fn request(&mut self) -> (r: String)
        requires
            old(self)@.version < u64::MAX,
        ensures
            final(self)@ == old(self)@.asked(r@),
    {
        let nonce = fresh_id();
        self.request_as(nonce.as_str());
        nonce
    }

    /// A number that moves with every change.
    pub fn version(&self) -> (r: u64)
        ensures
            r == self@.version,
    {
        self.version
    }

    /// One event per outstanding request, oldest first.
    pub fn pending_events(&self) -> (r: Vec<UnwrapEvent>)
        ensures
            r@.len() == self@.open.len(),
            forall|i: int|
                0 <= i < r@.len() ==> (#[trigger] r@[i]).kind@ == "unwrap"@ && r@[i].nonce@
                    == self@.open[i],
    {
        let mut out: Vec<UnwrapEvent> = Vec::new();
        let mut i: usize = 0;
        while i < self.open.len()
            invariant
                i <= self.open.len(),
                out@.len() == i,
                self@.open == text::texts(self.open@),
                forall|k: int|
                    0 <= k < i ==> (#[trigger] out@[k]).kind@ == "unwrap"@ && out@[k].nonce@
                        == self@.open[k],
            decreases self.open.len() - i,
        {
            out.push(UnwrapEvent { kind: "unwrap", nonce: self.open[i].clone() });
            i += 1;
        }
        out
    }

    /// Record the app's answer. `false` where no such request is outstanding,
    /// which is how a replayed or invented nonce is refused.
    pub fn resolve(&mut self, nonce: &str, ok: bool, reason: &str) -> (r: bool)
        requires
            old(self)@.version < u64::MAX,
        ensures
            r == old(self)@.open.contains(nonce@),
            final(self)@ == old(self)@.answered(nonce@, ok, reason@),
    {
        let ghost open = self@.open;
        let mut i: usize = 0;
        while i < self.open.len()
            invariant
                i <= self.open.len(),
                open == text::texts(self.open@),
                self@ == old(self)@,
                self.version < u64::MAX,
                old(self)@.open == open,
                forall|k: int| 0 <= k < i ==> #[trigger] open[k] != nonce@,
            decreases self.open.len() - i,
        {
            if text::same(self.open[i].as_str(), nonce) {
                proof {
                    assert(open[i as int] == nonce@);
                    open.index_of_first_ensures(nonce@);
                }
                self.open.remove(i);
                self.last = Some((nonce.to_owned(), ok, reason.to_owned()));
                self.version = self.version + 1;
                assert(self@.open =~= open.remove(i as int));
                return true;
            }
            i += 1;
        }
        false
    }

    /// What a waiter for this nonce does, given whether its time is up. An answer
    /// that is in counts even then.
    pub fn wait_for(&self, nonce: &str, time_is_up: bool) -> (r: Waiting)
        ensures
            r@ == (match self@.last {
                Some((n, ok, why)) if n == nonce@ => WaitingView::Answered { ok, reason: why },
                _ => if time_is_up {
                    WaitingView::TimedOut
                } else {
                    WaitingView::Wait
                },
            }),
    {
        if let Some((n, ok, reason)) = &self.last {
            if text::same(n.as_str(), nonce) {
                return Waiting::Answered { ok: *ok, reason: reason.clone() };
            }
        }
        if time_is_up {
            Waiting::TimedOut
        } else {
            Waiting::Wait
        }
    }

    /// Whether a subscriber that saw this version has to wait for a change.
    pub fn wait_for_change(&self, version: u64) -> (r: bool)
        ensures
            r == (self@.version == version),
    {
        self.version == version
    }
}

/// A nonce answers once: where it was asked for once, the answer is taken, and a
/// second one is refused. One that was never asked for is refused.
pub proof fn a_nonce_answers_once(
    q: RequestsView,
    nonce: Seq<char>,
    ok: bool,
    why: Seq<char>,
)
    requires
        !q.open.contains(nonce),
    ensures
        q.asked(nonce).open.contains(nonce),
        !q.asked(nonce).answered(nonce, ok, why).open.contains(nonce),
        q.asked(nonce).answered(nonce, ok, why).last == Some((nonce, ok, why)),
        q.answered(nonce, ok, why) == q,
{
    let open = q.asked(nonce).open;
    assert(open[q.open.len() as int] == nonce);
    open.index_of_first_ensures(nonce);
    let at = open.index_of_first(nonce)->0;
    assert(at == q.open.len()) by {
        if at < q.open.len() {
            assert(q.open[at] == nonce);
        }
    }
    assert(open.remove(at) =~= q.open);
}

/// An answer closes no request but its own.
pub proof fn an_answer_closes_only_its_own(
    q: RequestsView,
    nonce: Seq<char>,
    ok: bool,
    why: Seq<char>,
    other: Seq<char>,
)
    requires
        other != nonce,
    ensures
        q.answered(nonce, ok, why).open.contains(other) <==> q.open.contains(other),
{
    if q.open.contains(nonce) {
        q.open.index_of_first_ensures(nonce);
        let at = q.open.index_of_first(nonce)->0;
        let left = q.open.remove(at);
        if q.open.contains(other) {
            let i = q.open.index_of(other);
            if i < at {
                assert(left[i] == other);
            } else {
                assert(left[i - 1] == other);
            }
        }
        if left.contains(other) {
            let i = left.index_of(other);
            if i < at {
                assert(q.open[i] == other);
            } else {
                assert(q.open[i + 1] == other);
            }
        }
    }
}

/// Every change moves the number by one, and a refused answer is no change; a request
/// joins behind those that wait, and an answer leaves one fewer.
pub proof fn every_change_moves_the_version(
    q: RequestsView,
    nonce: Seq<char>,
    ok: bool,
    why: Seq<char>,
)
    requires
        q.version < u64::MAX,
    ensures
        q.asked(nonce).version == q.version + 1,
        q.asked(nonce).open.len() == q.open.len() + 1,
        q.asked(nonce).open.last() == nonce,
        q.asked(nonce).open.drop_last() == q.open,
        q.asked(nonce).last == q.last,
        q.open.contains(nonce) ==> {
            let after = q.answered(nonce, ok, why);
            &&& after.version == q.version + 1
            &&& after.open.len() == q.open.len() - 1
            &&& after.last == Some((nonce, ok, why))
        },
        !q.open.contains(nonce) ==> q.answered(nonce, ok, why) == q,
{
    assert(q.asked(nonce).open.drop_last() =~= q.open);
    if q.open.contains(nonce) {
        q.open.index_of_first_ensures(nonce);
    }
}

/// An answer is taken exactly where its nonce is outstanding; one that is refused leaves
/// everything as it was, so that a nonce which was made up or used before does nothing.
pub proof fn an_answer_is_taken_where_it_was_asked_for(
    q: &mut UnwrapRequests,
    nonce: &str,
    ok: bool,
    reason: &str,
    r: bool,
)
    requires
        call_ensures(UnwrapRequests::resolve, (q, nonce, ok, reason), r),
    ensures
        r <==> exists|i: int| 0 <= i < old(q)@.open.len() && #[trigger] old(q)@.open[i] == nonce@,
        !r ==> final(q)@ == old(q)@,
        r ==> final(q)@.last == Some((nonce@, ok, reason@)) && final(q)@.open.len() + 1 == old(
            q,
        )@.open.len(),
{
    if r {
        let i = old(q)@.open.index_of(nonce@);
        assert(old(q)@.open[i] == nonce@);
        old(q)@.open.index_of_first_ensures(nonce@);
    }
}

/// Whoever waits for an answer gets that to their own nonce and no other; where it is
/// not in, they wait until their time is up.
pub proof fn a_waiter_gets_their_own_answer(
    q: &UnwrapRequests,
    nonce: &str,
    time_is_up: bool,
    r: Waiting,
)
    requires
        call_ensures(UnwrapRequests::wait_for, (q, nonce, time_is_up), r),
    ensures
        r matches Waiting::Answered { ok, reason } ==> q@.last == Some((nonce@, ok, reason@)),
        q@.last matches Some((n, _, _)) && n == nonce@ ==> r is Answered,
        r is TimedOut ==> time_is_up,
        r is Wait ==> !time_is_up,
{
}

} // verus!
