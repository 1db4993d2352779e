//! How a client asks for the snapshot of an account: callers that want the same
//! account while a fetch is under way wait for that fetch.
use crate::pubkey::{lemma_pubkey_extensional, Pubkey};
use vstd::prelude::*;

verus! {

/// What is sent to the worker that fetches accounts.
#[derive(Clone, Copy, Debug)]
pub struct FetchRequest {
    pub pubkey: Pubkey,
    pub min_context_slot: Option<u64>,
}

/// Why a caller gets no snapshot.
#[derive(Debug)]
pub enum AccountFetcherError<E> {
    /// The request did not reach the worker.
    SendError(FetchRequest),
    /// The worker gave up the caller without an answer.
    RecvError,
    /// The worker answered that it failed.
    Failed(E),
}

/// What becomes of the number of pending clone requests.
#[derive(Clone, Copy, PartialEq, Eq, Structural, Debug)]
pub enum Pending {
    Raise,
    Keep,
    Lower,
}

/// How a call starts.
#[derive(Debug)]
pub struct FetchStart {
    pub pending: Pending,
    /// The request to send, where this caller is the first to want the account.
    pub request: Option<FetchRequest>,
}

/// How a call goes on once its request was sent, or could not be.
#[derive(Debug)]
pub enum AfterSend<E> {
    AwaitReply,
    Return { pending: Pending, error: AccountFetcherError<E> },
}

/// How a call ends once its wait is over.
#[derive(Debug)]
pub struct FetchEnd<T, E> {
    pub pending: Pending,
    pub result: Result<T, AccountFetcherError<E>>,
}

/// The callers that wait for one account.
struct Waiting<S> {
    pubkey: Pubkey,
    senders: Vec<S>,
}

/// The callers that wait for accounts, each by the sender that its answer goes to.
pub struct FetchListeners<S> {
    entries: Vec<Waiting<S>>,
}

/// The senders that wait for `pubkey`, where a fetch of it is under way.
pub open spec fn waiting<S>(listeners: Map<Pubkey, Seq<S>>, pubkey: Pubkey) -> Seq<S> {
    if listeners.contains_key(pubkey) {
        listeners[pubkey]
    } else {
        Seq::empty()
    }
}

/// The listeners with one more sender that waits for `pubkey`.
pub open spec fn registered<S>(listeners: Map<Pubkey, Seq<S>>, pubkey: Pubkey, sender: S) -> Map<
    Pubkey,
    Seq<S>,
> {
    listeners.insert(pubkey, waiting(listeners, pubkey).push(sender))
}

impl<S> FetchListeners<S> {
    spec fn has(self, pubkey: Pubkey, i: int) -> bool {
        0 <= i < self.entries@.len() && self.entries@[i].pubkey == pubkey
    }

    /// No account is listed twice.
    pub closed spec fn wf(self) -> bool {
        forall|i: int, j: int|
            0 <= i < j < self.entries@.len() ==> (#[trigger] self.entries@[i]).pubkey != (
            #[trigger] self.entries@[j]).pubkey
    }

    /// For each account that is being fetched, the senders that wait for it, the
    /// earliest first.
    pub closed spec fn view(self) -> Map<Pubkey, Seq<S>> {
        Map::new(
            |pubkey: Pubkey| exists|i: int| self.has(pubkey, i),
            |pubkey: Pubkey| self.entries@[choose|i: int| self.has(pubkey, i)].senders@,
        )
    }

    proof fn lemma_entry(self, i: int)
        requires
            self.wf(),
            0 <= i < self.entries@.len(),
        ensures
            self.view().contains_key(self.entries@[i].pubkey),
            self.view()[self.entries@[i].pubkey] == self.entries@[i].senders@,
    {
        let pubkey = self.entries@[i].pubkey;
        assert(self.has(pubkey, i));
        let j = choose|j: int| self.has(pubkey, j);
        assert(self.has(pubkey, j));
        if i < j {
            assert(self.entries@[i].pubkey != self.entries@[j].pubkey);
        } else if j < i {
            assert(self.entries@[j].pubkey != self.entries@[i].pubkey);
        }
    }

    /// Nobody waits for anything.
    pub fn new() -> (r: FetchListeners<S>)
        ensures
            r.wf(),
            r@ == Map::<Pubkey, Seq<S>>::empty(),
    {
        let r = FetchListeners { entries: Vec::new() };
        assert(r@ =~= Map::<Pubkey, Seq<S>>::empty()) by {
            assert forall|pubkey: Pubkey| !r@.contains_key(pubkey) by {
                assert forall|i: int| !r.has(pubkey, i) by {}
            }
        }
        r
    }

    fn position(&self, pubkey: &Pubkey) -> (r: Option<usize>)
        requires
            self.wf(),
        ensures
            match r {
                Some(i) => self.has(*pubkey, i as int),
                None => !self@.contains_key(*pubkey),
            },
    {
        for i in 0..self.entries.len()
            invariant
                forall|j: int| 0 <= j < i ==> (#[trigger] self.entries@[j]).pubkey != *pubkey,
        {
            proof {
                lemma_pubkey_extensional(self.entries@[i as int].pubkey, *pubkey);
            }
            if self.entries[i].pubkey == *pubkey {
                return Some(i);
            }
        }
        assert forall|i: int| !self.has(*pubkey, i) by {}
        None
    }

    /// Adds a sender to those that wait for `pubkey`. Tells whether it is the
    /// only one, so that a fetch has to be requested.
    pub fn register(&mut self, pubkey: &Pubkey, sender: S) -> (r: bool)
        requires
            old(self).wf(),
        ensures
            final(self).wf(),
            final(self)@ == registered(old(self)@, *pubkey, sender),
            r == !old(self)@.contains_key(*pubkey),
    {
        match self.position(pubkey) {
            Some(i) => {
                proof {
                    self.lemma_entry(i as int);
                }
                self.entries[i].senders.push(sender);
                proof {
                    self.lemma_changed(*old(self), i as int);
                    assert(self@ =~= registered(old(self)@, *pubkey, sender));
                }
                false
            },
            None => {
                let mut senders: Vec<S> = Vec::new();
                senders.push(sender);
                self.entries.push(Waiting { pubkey: *pubkey, senders });
                proof {
                    let last = self.entries@.len() - 1;
                    assert forall|i: int, j: int| 0 <= i < j < self.entries@.len() implies (
                    #[trigger] self.entries@[i]).pubkey != (#[trigger] self.entries@[j]).pubkey by {
                        if j == last && self.entries@[i].pubkey == *pubkey {
                            assert(old(self).has(*pubkey, i));
                        }
                    }
                    self.lemma_changed(*old(self), last);
                    assert(self@ =~= registered(old(self)@, *pubkey, sender));
                }
                true
            },
        }
    }

    /// The listeners that have the same entries, but for the one at `at`, have
    /// the same senders for every other account.
    proof fn lemma_changed(self, before: FetchListeners<S>, at: int)
        requires
            before.wf(),
            self.wf(),
            0 <= at < self.entries@.len(),
            before.entries@.len() == self.entries@.len() || before.entries@.len() == at
                && self.entries@.len() == at + 1,
            forall|i: int|
                0 <= i < before.entries@.len() && i != at ==> #[trigger] self.entries@[i]
                    == before.entries@[i],
            at < before.entries@.len() ==> before.entries@[at].pubkey == self.entries@[at].pubkey,
        ensures
            self@.contains_key(self.entries@[at].pubkey),
            self@[self.entries@[at].pubkey] == self.entries@[at].senders@,
            forall|pubkey: Pubkey|
                pubkey != self.entries@[at].pubkey ==> (#[trigger] self@.contains_key(pubkey)
                    == before@.contains_key(pubkey)) && (before@.contains_key(pubkey)
                    ==> self@[pubkey] == before@[pubkey]),
    {
        self.lemma_entry(at);
        assert forall|pubkey: Pubkey| pubkey != self.entries@[at].pubkey implies (
        #[trigger] self@.contains_key(pubkey) == before@.contains_key(pubkey)) && (
        before@.contains_key(pubkey) ==> self@[pubkey] == before@[pubkey]) by {
            if self@.contains_key(pubkey) {
                let i = choose|i: int| self.has(pubkey, i);
                assert(before.has(pubkey, i));
                self.lemma_entry(i);
                before.lemma_entry(i);
            }
            if before@.contains_key(pubkey) {
                let i = choose|i: int| before.has(pubkey, i);
                assert(before.has(pubkey, i));
                assert(self.entries@[i] == before.entries@[i]);
                assert(self.has(pubkey, i));
                self.lemma_entry(i);
                before.lemma_entry(i);
            }
        }
    }

    /// Takes out the senders that wait for `pubkey`, for the worker to answer
    /// them. The fetch of `pubkey` is over then.
    pub fn take(&mut self, pubkey: &Pubkey) -> (r: Option<Vec<S>>)
        requires
            old(self).wf(),
        ensures
            final(self).wf(),
            final(self)@ == old(self)@.remove(*pubkey),
            match r {
                Some(senders) => old(self)@.contains_key(*pubkey) && senders@ == old(self)@[*pubkey],
                None => !old(self)@.contains_key(*pubkey),
            },
    {
        match self.position(pubkey) {
            Some(i) => {
                let entry = self.entries.remove(i);
                proof {
                    let before = *old(self);
                    before.lemma_entry(i as int);
                    assert forall|j: int|
                        0 <= j < self.entries@.len() implies #[trigger] self.entries@[j]
                        == before.entries@[if j < i {
                        j
                    } else {
                        j + 1
                    }] by {}
                    assert(self.wf());
                    assert forall|k: Pubkey|
                        (#[trigger] self@.contains_key(k) == before@.remove(*pubkey).contains_key(k))
                        && (self@.contains_key(k) ==> self@[k] == before@[k]) by {
                        if self@.contains_key(k) {
                            let j = choose|j: int| self.has(k, j);
                            assert(self.has(k, j));
                            let m = if j < i {
                                j
                            } else {
                                j + 1
                            };
                            assert(before.has(k, m));
                            self.lemma_entry(j);
                            before.lemma_entry(m);
                        }
                        if before@.remove(*pubkey).contains_key(k) {
                            let m = choose|m: int| before.has(k, m);
                            assert(before.has(k, m));
                            assert(m != i);
                            let j = if m < i {
                                m
                            } else {
                                m - 1
                            };
                            assert(self.entries@[j] == before.entries@[m]);
                            assert(self.has(k, j));
                        }
                    }
                    assert(self@ =~= before@.remove(*pubkey));
                }
                Some(entry.senders)
            },
            None => {
                assert(self@ =~= self@.remove(*pubkey));
                None
            },
        }
    }
}

/// How a call for `pubkey` starts.
pub open spec fn fetch_start<S>(
    listeners: Map<Pubkey, Seq<S>>,
    pubkey: Pubkey,
    min_context_slot: Option<u64>,
) -> FetchStart {
    FetchStart {
        pending: Pending::Raise,
        request: if listeners.contains_key(pubkey) {
            None
        } else {
            Some(FetchRequest { pubkey, min_context_slot })
        },
    }
}

/// How a call goes on once its request was sent, or could not be.
pub open spec fn send_verdict<E>(sent: Result<(), FetchRequest>) -> AfterSend<E> {
    match sent {
        Ok(_) => AfterSend::AwaitReply,
        Err(request) => AfterSend::Return {
            pending: Pending::Keep,
            error: AccountFetcherError::SendError(request),
        },
    }
}

/// How a call ends with what it received.
pub open spec fn reply_verdict<T, E>(
    received: Option<Result<T, AccountFetcherError<E>>>,
) -> FetchEnd<T, E> {
    FetchEnd {
        pending: Pending::Lower,
        result: match received {
            Some(result) => result,
            None => Err(AccountFetcherError::RecvError),
        },
    }
}

/// Starts to fetch the snapshot of an account for the caller who is answered
/// through `sender`. Only the first caller who wants the account has the worker
/// asked; the slot that a later caller wants is not passed on.
pub fn fetch_account_chain_snapshot<S>(
    listeners: &mut FetchListeners<S>,
    pubkey: &Pubkey,
    min_context_slot: Option<u64>,
    sender: S,
) -> (r: FetchStart)
    requires
        old(listeners).wf(),
    ensures
        final(listeners).wf(),
        final(listeners)@ == registered(old(listeners)@, *pubkey, sender),
        r == fetch_start(old(listeners)@, *pubkey, min_context_slot),
{
    let should_request_fetch = listeners.register(pubkey, sender);
    let request = if should_request_fetch {
        Some(FetchRequest { pubkey: *pubkey, min_context_slot })
    } else {
        None
    };
    FetchStart { pending: Pending::Raise, request }
}

/// Goes on once the request was sent, or could not be. A caller whose request
/// could not be sent stays among the listeners, and stays counted as pending.
pub fn after_send<E>(sent: Result<(), FetchRequest>) -> (r: AfterSend<E>)
    ensures
        r == send_verdict::<E>(sent),
{
    match sent {
        Ok(()) => AfterSend::AwaitReply,
        Err(request) => AfterSend::Return {
            pending: Pending::Keep,
            error: AccountFetcherError::SendError(request),
        },
    }
}

/// Ends a call once its wait is over: with the worker's answer, or with none
/// where the worker gave the caller up.
pub fn after_reply<T, E>(received: Option<Result<T, AccountFetcherError<E>>>) -> (r: FetchEnd<T, E>)
    ensures
        r == reply_verdict(received),
{
    let result = match received {
        Some(result) => result,
        None => Err(AccountFetcherError::RecvError),
    };
    FetchEnd { pending: Pending::Lower, result }
}

/// One call for the snapshot of an account.
pub struct FetchCall<S> {
    pub pubkey: Pubkey,
    pub min_context_slot: Option<u64>,
    pub sender: S,
}

/// The listeners after a run of calls.
pub open spec fn listeners_after<S>(
    listeners: Map<Pubkey, Seq<S>>,
    calls: Seq<FetchCall<S>>,
) -> Map<Pubkey, Seq<S>>
    decreases calls.len(),
{
    if calls.len() == 0 {
        listeners
    } else {
        listeners_after(
            registered(listeners, calls[0].pubkey, calls[0].sender),
            calls.drop_first(),
        )
    }
}

/// What the worker is asked for by a run of calls.
pub open spec fn requested<S>(
    listeners: Map<Pubkey, Seq<S>>,
    calls: Seq<FetchCall<S>>,
) -> Seq<FetchRequest>
    decreases calls.len(),
{
    if calls.len() == 0 {
        Seq::empty()
    } else {
        let first = calls[0];
        let rest = requested(
            registered(listeners, first.pubkey, first.sender),
            calls.drop_first(),
        );
        match fetch_start(listeners, first.pubkey, first.min_context_slot).request {
            Some(request) => seq![request] + rest,
            None => rest,
        }
    }
}

/// The calls of a run that want `pubkey`, the earliest first.
pub open spec fn calls_for<S>(calls: Seq<FetchCall<S>>, pubkey: Pubkey) -> Seq<FetchCall<S>>
    decreases calls.len(),
{
    if calls.len() == 0 {
        Seq::empty()
    } else {
        let rest = calls_for(calls.drop_first(), pubkey);
        if calls[0].pubkey == pubkey {
            seq![calls[0]] + rest
        } else {
            rest
        }
    }
}

/// The senders of calls.
pub open spec fn senders_of<S>(calls: Seq<FetchCall<S>>) -> Seq<S> {
    Seq::new(calls.len(), |i: int| calls[i].sender)
}

/// What a run of calls asks the worker for on account of one address: where a
/// fetch is under way or no call wants the account, nothing; else what the first
/// of the calls that want it asks for.
pub open spec fn request_for<S>(
    listeners: Map<Pubkey, Seq<S>>,
    calls: Seq<FetchCall<S>>,
    pubkey: Pubkey,
) -> Option<FetchRequest> {
    if listeners.contains_key(pubkey) || calls_for(calls, pubkey).len() == 0 {
        None
    } else {
        Some(
            FetchRequest {
                pubkey,
                min_context_slot: calls_for(calls, pubkey)[0].min_context_slot,
            },
        )
    }
}

/// A run of calls asks the worker for an account once, on behalf of the first
/// caller, if it wants an account that is not being fetched, and never otherwise.
pub proof fn law_one_request_for_each_account<S>(
    listeners: Map<Pubkey, Seq<S>>,
    calls: Seq<FetchCall<S>>,
)
    ensures
        forall|i: int, j: int|
            0 <= i < j < requested(listeners, calls).len() ==> (#[trigger] requested(
                listeners,
                calls,
            )[i]).pubkey != (#[trigger] requested(listeners, calls)[j]).pubkey,
        forall|request: FetchRequest| #[trigger]
            requested(listeners, calls).contains(request) <==> request_for(
                listeners,
                calls,
                request.pubkey,
            ) == Some(request),
    decreases calls.len(),
{
    if calls.len() > 0 {
        let first = calls[0];
        let next = registered(listeners, first.pubkey, first.sender);
        let rest_calls = calls.drop_first();
        let rest = requested(next, rest_calls);
        let all = requested(listeners, calls);
        let own = FetchRequest {
            pubkey: first.pubkey,
            min_context_slot: first.min_context_slot,
        };
        law_one_request_for_each_account(next, rest_calls);
        if !listeners.contains_key(first.pubkey) {
            assert(all == seq![own] + rest);
            assert(all[0] == own);
            assert forall|i: int, j: int| 0 <= i < j < all.len() implies (#[trigger] all[i]).pubkey
                != (#[trigger] all[j]).pubkey by {
                assert(rest[j - 1] == all[j]);
                assert(rest.contains(all[j]));
                if i > 0 {
                    assert(rest[i - 1] == all[i]);
                }
            }
            assert forall|request: FetchRequest| #[trigger] all.contains(request) <==> request == own
                || rest.contains(request) by {
                if rest.contains(request) {
                    let i = choose|i: int| 0 <= i < rest.len() && rest[i] == request;
                    assert(all[i + 1] == request);
                }
                if all.contains(request) && request != own {
                    let i = choose|i: int| 0 <= i < all.len() && all[i] == request;
                    assert(rest[i - 1] == request);
                }
            }
        }
        assert forall|request: FetchRequest| #[trigger] all.contains(request) <==> request_for(
            listeners,
            calls,
            request.pubkey,
        ) == Some(request) by {
            assert(rest.contains(request) <==> request_for(next, rest_calls, request.pubkey) == Some(
                request,
            ));
        }
    }
}

/// Every caller of a run is listed under the account it wants, after those who
/// were listed before, in the order of the calls.
pub proof fn law_every_caller_is_listed<S>(
    listeners: Map<Pubkey, Seq<S>>,
    calls: Seq<FetchCall<S>>,
    pubkey: Pubkey,
)
    ensures
        waiting(listeners_after(listeners, calls), pubkey) == waiting(listeners, pubkey)
            + senders_of(calls_for(calls, pubkey)),
        listeners_after(listeners, calls).contains_key(pubkey) <==> listeners.contains_key(pubkey)
            || calls_for(calls, pubkey).len() > 0,
    decreases calls.len(),
{
    if calls.len() == 0 {
        assert(waiting(listeners, pubkey) + senders_of(calls_for(calls, pubkey)) =~= waiting(
            listeners,
            pubkey,
        ));
    } else {
        let next = registered(listeners, calls[0].pubkey, calls[0].sender);
        let rest = calls.drop_first();
        law_every_caller_is_listed(next, rest, pubkey);
        assert(waiting(next, pubkey) + senders_of(calls_for(rest, pubkey)) =~= waiting(
            listeners,
            pubkey,
        ) + senders_of(calls_for(calls, pubkey)));
    }
}

/// Once the worker has taken out the callers who wait for an account, the next
/// caller who wants it has the worker asked again, and is the only one who waits.
pub proof fn law_taken_account_is_requested_again<S>(
    listeners: Map<Pubkey, Seq<S>>,
    pubkey: Pubkey,
    min_context_slot: Option<u64>,
    sender: S,
)
    ensures
        fetch_start(listeners.remove(pubkey), pubkey, min_context_slot).request == Some(
            FetchRequest { pubkey, min_context_slot },
        ),
        waiting(registered(listeners.remove(pubkey), pubkey, sender), pubkey) == seq![sender],
{
    let left = listeners.remove(pubkey);
    assert(waiting(registered(left, pubkey, sender), pubkey) =~= seq![sender]);
}

/// By how much the number of pending clone requests changes.
pub open spec fn pending_change(pending: Pending) -> int {
    match pending {
        Pending::Raise => 1,
        Pending::Keep => 0,
        Pending::Lower => -1,
    }
}

/// A call whose wait ends, with or without an answer, leaves the number of
/// pending clone requests as it was; a call whose request could not be sent
/// leaves it one higher.
pub proof fn law_pending_counts_open_calls<S, T, E>(
    listeners: Map<Pubkey, Seq<S>>,
    pubkey: Pubkey,
    min_context_slot: Option<u64>,
    unsent: FetchRequest,
    received: Option<Result<T, AccountFetcherError<E>>>,
)
    ensures
        pending_change(fetch_start(listeners, pubkey, min_context_slot).pending) + pending_change(
            reply_verdict(received).pending,
        ) == 0,
        send_verdict::<E>(Err(unsent)) matches AfterSend::Return { pending, .. } && pending_change(
            fetch_start(listeners, pubkey, min_context_slot).pending,
        ) + pending_change(pending) == 1,
{
}

/// The first caller for an account asks the worker for it, with the slot that it
/// wants itself; a later one asks for nothing. Each caller is counted, and is
/// listed behind those who wait for the same account. Nobody else's list changes.
pub proof fn law_caller_is_listed_last<S>(
    listeners: Map<Pubkey, Seq<S>>,
    pubkey: Pubkey,
    min_context_slot: Option<u64>,
    sender: S,
)
    ensures
        ({
            let start = fetch_start(listeners, pubkey, min_context_slot);
            let after = registered(listeners, pubkey, sender);
            &&& start.pending == Pending::Raise
            &&& listeners.contains_key(pubkey) ==> start.request == None::<FetchRequest>
            &&& !listeners.contains_key(pubkey) ==> start.request == Some(
                FetchRequest { pubkey, min_context_slot },
            )
            &&& after.contains_key(pubkey)
            &&& listeners.contains_key(pubkey) ==> after[pubkey] == listeners[pubkey].push(sender)
            &&& !listeners.contains_key(pubkey) ==> after[pubkey] == seq![sender]
            &&& forall|other: Pubkey|
                other != pubkey ==> (#[trigger] after.contains_key(other)
                    == listeners.contains_key(other)) && (listeners.contains_key(other)
                    ==> after[other] == listeners[other])
        }),
{
    if !listeners.contains_key(pubkey) {
        assert(registered(listeners, pubkey, sender)[pubkey] =~= seq![sender]);
    }
}

/// A call waits where its request was sent, and fails with the request where it
/// was not. A call that waited ends with what the worker answered, or with a lost
/// reply where it did not answer.
pub proof fn law_call_ends_with_its_reply<T, E>(
    unsent: FetchRequest,
    reply: Result<T, AccountFetcherError<E>>,
)
    ensures
        send_verdict::<E>(Ok(())) == AfterSend::<E>::AwaitReply,
        send_verdict::<E>(Err(unsent)) == (AfterSend::<E>::Return {
            pending: Pending::Keep,
            error: AccountFetcherError::SendError(unsent),
        }),
        reply_verdict(Some(reply)) == (FetchEnd { pending: Pending::Lower, result: reply }),
        reply_verdict::<T, E>(None) == (FetchEnd {
            pending: Pending::Lower,
            result: Err::<T, AccountFetcherError<E>>(AccountFetcherError::RecvError),
        }),
{
}

} // verus!
