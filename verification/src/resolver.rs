use crate::claim_path::find_char;
use crate::claim_path::find_from;
use crate::document::DocumentView;
use crate::document::IdentityDocument;
use crate::text::chars_of;
use vstd::prelude::*;

verus! {

/// Why an identity reference did not resolve.
#[derive(Clone, Copy, Debug, PartialEq, Eq, Structural)]
pub enum ResolveError {
    /// No handler is registered for the method of the reference.
    UnregisteredMethod,
    /// The handler ran and the identity does not exist.
    NotFound,
    /// The fetch failed on the way; the caller may try again.
    TransientFetchError,
}

/// What a handler's fetch came to.
#[derive(Debug, PartialEq, Eq)]
pub enum FetchOutcome {
    Found(IdentityDocument),
    NotFound,
    TransientError,
}

/// A resolved document. A document that is marked as deactivated is handed
/// out as such, not as an error.
#[derive(Debug, PartialEq, Eq)]
pub enum Resolution {
    Active(IdentityDocument),
    Deactivated(IdentityDocument),
}

/// What the caller of `begin_resolve` is to do.
#[derive(Debug, PartialEq, Eq)]
pub enum Step {
    /// The cache holds a fresh document: here it is.
    Hit(Resolution),
    /// A fetch for this identity is in flight: wait for its outcome.
    Wait,
    /// Fetch the document with the handler of this method, and report the
    /// outcome with `complete_fetch`.
    Fetch(String),
    /// The reference cannot be resolved.
    Fail(ResolveError),
}

/// What the cache holds for one identity, as a mathematical value.
pub enum SlotView {
    /// A document, and when it was fetched.
    Ready { document: DocumentView, fetched_at: u64 },
    /// A fetch is in flight, and so many callers wait for it.
    Pending { waiters: u64 },
    /// The last fetch failed, and so many of the callers that waited for it
    /// have not taken its outcome yet.
    Failed { error: ResolveError, waiters: u64 },
}

/// The resolver as a mathematical value: the methods that have a handler,
/// the freshness window in seconds, and the cache.
pub struct ResolverView {
    pub handlers: Set<Seq<char>>,
    pub window: u64,
    pub cache: Map<Seq<char>, SlotView>,
}

/// What `begin_resolve` answers, as a mathematical value.
pub enum StepView {
    Hit(DocumentView),
    Wait,
    Fetch(Seq<char>),
    Fail(ResolveError),
}

/// The method of an identity reference `did:<method>:<rest>`: what stands
/// between the first two colons, where the reference starts with `did:` and
/// the method is not empty.
pub open spec fn method_of(identity: Seq<char>) -> Option<Seq<char>> {
    let end = find_from(identity, ':', 4);
    if identity.len() >= 4 && identity.subrange(0, 4) == "did:"@ && 4 < end < identity.len() {
        Some(identity.subrange(4, end))
    } else {
        None
    }
}

/// A cached document is fresh while its age is within the window.
pub open spec fn is_fresh(fetched_at: u64, now: u64, window: u64) -> bool {
    now - fetched_at <= window
}

/// Whether a fetch for `identity` is in flight.
pub open spec fn in_flight(state: ResolverView, identity: Seq<char>) -> bool {
    state.cache.contains_key(identity) && state.cache[identity] is Pending
}

/// One more, up to the largest count.
pub open spec fn one_more(count: u64) -> u64 {
    if count < u64::MAX {
        (count + 1) as u64
    } else {
        count
    }
}

/// What a request for `identity` at time `now` is answered with. A failure
/// that waiting callers have yet to take is a miss to everyone else.
pub open spec fn next_step(state: ResolverView, identity: Seq<char>, now: u64) -> StepView {
    if in_flight(state, identity) {
        StepView::Wait
    } else if state.cache.contains_key(identity) && state.cache[identity] is Ready && is_fresh(
        state.cache[identity]->fetched_at,
        now,
        state.window,
    ) {
        StepView::Hit(state.cache[identity]->document)
    } else {
        match method_of(identity) {
            Some(method) => if state.handlers.contains(method) {
                StepView::Fetch(method)
            } else {
                StepView::Fail(ResolveError::UnregisteredMethod)
            },
            None => StepView::Fail(ResolveError::UnregisteredMethod),
        }
    }
}

/// The resolver after a request for `identity` at time `now`: where the
/// request starts a fetch, the identity is marked as pending, with no one
/// waiting; where it is told to wait, it is counted among those who wait;
/// otherwise nothing changes.
pub open spec fn after_begin(state: ResolverView, identity: Seq<char>, now: u64) -> ResolverView {
    match next_step(state, identity, now) {
        StepView::Fetch(_) => ResolverView {
            cache: state.cache.insert(identity, SlotView::Pending { waiters: 0 }),
            ..state
        },
        StepView::Wait => ResolverView {
            cache: state.cache.insert(
                identity,
                SlotView::Pending { waiters: one_more(state.cache[identity]->Pending_waiters) },
            ),
            ..state
        },
        _ => state,
    }
}

/// The resolver after the fetch for `identity` has ended at time `now` with
/// `outcome`. Only a pending identity takes the outcome. A document is
/// cached. A failure is kept for the callers that wait for it; where none
/// waits, it clears the mark.
pub open spec fn after_complete(
    state: ResolverView,
    identity: Seq<char>,
    outcome: Result<DocumentView, ResolveError>,
    now: u64,
) -> ResolverView {
    if in_flight(state, identity) {
        match outcome {
            Ok(document) => ResolverView {
                cache: state.cache.insert(identity, SlotView::Ready { document, fetched_at: now }),
                ..state
            },
            Err(error) => if state.cache[identity]->Pending_waiters == 0 {
                ResolverView { cache: state.cache.remove(identity), ..state }
            } else {
                ResolverView {
                    cache: state.cache.insert(
                        identity,
                        SlotView::Failed {
                            error,
                            waiters: state.cache[identity]->Pending_waiters,
                        },
                    ),
                    ..state
                }
            },
        }
    } else {
        state
    }
}

/// The resolver after the fetch for `identity` was cancelled: a pending
/// identity becomes a miss, whoever waits for it.
pub open spec fn after_cancel(state: ResolverView, identity: Seq<char>) -> ResolverView {
    if in_flight(state, identity) {
        ResolverView { cache: state.cache.remove(identity), ..state }
    } else {
        state
    }
}

/// What a caller that waited for the fetch for `identity` is to get: the
/// document that the fetch brought, or the error that it failed with. There
/// is none while the fetch is in flight, and none after it was cancelled.
pub open spec fn flight_outcome(state: ResolverView, identity: Seq<char>) -> Option<
    Result<DocumentView, ResolveError>,
> {
    if !state.cache.contains_key(identity) {
        None
    } else {
        match state.cache[identity] {
            SlotView::Ready { document, .. } => Some(Ok(document)),
            SlotView::Failed { error, .. } => Some(Err(error)),
            SlotView::Pending { .. } => None,
        }
    }
}

/// The resolver after a caller that waited has taken the outcome: a failure
/// is kept until the last of those who waited has taken it.
pub open spec fn after_taken(state: ResolverView, identity: Seq<char>) -> ResolverView {
    if state.cache.contains_key(identity) && state.cache[identity] is Failed {
        if state.cache[identity]->Failed_waiters <= 1 {
            ResolverView { cache: state.cache.remove(identity), ..state }
        } else {
            ResolverView {
                cache: state.cache.insert(
                    identity,
                    SlotView::Failed {
                        error: state.cache[identity]->error,
                        waiters: (state.cache[identity]->Failed_waiters - 1) as u64,
                    },
                ),
                ..state
            }
        }
    } else {
        state
    }
}

/// The resolver after a run of requests for one identity, one request at
/// each of `times`, with no fetch ending in between.
pub open spec fn after_requests(state: ResolverView, identity: Seq<char>, times: Seq<u64>) -> ResolverView
    decreases times.len(),
{
    if times.len() == 0 {
        state
    } else {
        after_requests(after_begin(state, identity, times[0]), identity, times.drop_first())
    }
}

/// How many fetches a run of requests for one identity starts, one request
/// at each of `times`, with no fetch ending in between.
pub open spec fn fetches_started(state: ResolverView, identity: Seq<char>, times: Seq<u64>) -> nat
    decreases times.len(),
{
    if times.len() == 0 {
        0
    } else {
        let rest = fetches_started(
            after_begin(state, identity, times[0]),
            identity,
            times.drop_first(),
        );
        if next_step(state, identity, times[0]) is Fetch {
            rest + 1
        } else {
            rest
        }
    }
}

/// While a fetch for an identity is in flight, no request for it starts
/// another: each request is told to wait and is counted.
pub proof fn lemma_pending_starts_no_fetch(
    state: ResolverView,
    identity: Seq<char>,
    times: Seq<u64>,
)
    requires
        in_flight(state, identity),
    ensures
        fetches_started(state, identity, times) == 0,
        in_flight(after_requests(state, identity, times), identity),
        after_requests(state, identity, times).cache[identity]->Pending_waiters
            >= state.cache[identity]->Pending_waiters,
        times.len() > 0 ==> after_requests(state, identity, times).cache[identity]->Pending_waiters
            > 0,
    decreases times.len(),
{
    if times.len() > 0 {
        lemma_pending_starts_no_fetch(
            after_begin(state, identity, times[0]),
            identity,
            times.drop_first(),
        );
    }
}

/// Single flight: however many requests for one identity arrive while none
/// of its fetches has ended, they start at most one fetch.
pub proof fn lemma_single_flight(state: ResolverView, identity: Seq<char>, times: Seq<u64>)
    ensures
        fetches_started(state, identity, times) <= 1,
    decreases times.len(),
{
    if times.len() > 0 {
        if next_step(state, identity, times[0]) is Fetch {
            lemma_pending_starts_no_fetch(
                after_begin(state, identity, times[0]),
                identity,
                times.drop_first(),
            );
        } else {
            lemma_single_flight(
                after_begin(state, identity, times[0]),
                identity,
                times.drop_first(),
            );
        }
    }
}

/// On a cache miss, requests for an identity whose method has a handler
/// start exactly one fetch.
pub proof fn lemma_miss_starts_one_fetch(state: ResolverView, identity: Seq<char>, times: Seq<u64>)
    requires
        !state.cache.contains_key(identity),
        method_of(identity) matches Some(method) && state.handlers.contains(method),
        times.len() > 0,
    ensures
        fetches_started(state, identity, times) == 1,
{
    lemma_pending_starts_no_fetch(
        after_begin(state, identity, times[0]),
        identity,
        times.drop_first(),
    );
}

/// Every caller that waited for a fetch gets its outcome: where the first of
/// a run of requests starts a fetch and the others wait, the outcome that
/// the fetch is completed with is the one that is kept for those who waited,
/// be it a document or a failure.
pub proof fn lemma_waiters_get_the_outcome(
    state: ResolverView,
    identity: Seq<char>,
    times: Seq<u64>,
    outcome: Result<DocumentView, ResolveError>,
    now: u64,
)
    requires
        times.len() >= 2,
        next_step(state, identity, times[0]) is Fetch,
    ensures
        flight_outcome(
            after_complete(after_requests(state, identity, times), identity, outcome, now),
            identity,
        ) == Some(outcome),
{
    lemma_pending_starts_no_fetch(
        after_begin(state, identity, times[0]),
        identity,
        times.drop_first(),
    );
}

/// A failure is kept for as many callers as waited for it, and no longer:
/// when the last of them has taken it, the identity is a miss again.
pub proof fn lemma_failure_is_taken_once_each(state: ResolverView, identity: Seq<char>)
    requires
        state.cache.contains_key(identity),
        state.cache[identity] is Failed,
    ensures
        state.cache[identity]->Failed_waiters > 1 ==> flight_outcome(
            after_taken(state, identity),
            identity,
        ) == flight_outcome(state, identity),
        state.cache[identity]->Failed_waiters <= 1 ==> !after_taken(
            state,
            identity,
        ).cache.contains_key(identity),
{
}

/// A fetch that fails with no one waiting, and a fetch that is cancelled,
/// leave a miss behind: the next request for the identity starts a fetch
/// again.
pub proof fn lemma_failed_fetch_reverts_to_miss(
    state: ResolverView,
    identity: Seq<char>,
    error: ResolveError,
    now: u64,
    later: u64,
)
    requires
        next_step(state, identity, now) is Fetch,
    ensures
        !after_complete(
            after_begin(state, identity, now),
            identity,
            Err(error),
            now,
        ).cache.contains_key(identity),
        next_step(
            after_complete(after_begin(state, identity, now), identity, Err(error), now),
            identity,
            later,
        ) is Fetch,
        forall|times: Seq<u64>|
            !(#[trigger] after_cancel(
                after_requests(after_begin(state, identity, now), identity, times),
                identity,
            )).cache.contains_key(identity),
{
    assert forall|times: Seq<u64>|
        !(#[trigger] after_cancel(
            after_requests(after_begin(state, identity, now), identity, times),
            identity,
        )).cache.contains_key(identity) by {
        lemma_pending_starts_no_fetch(after_begin(state, identity, now), identity, times);
    }
}

/// The method of an identity reference, if it has one.
pub fn method_name(identity: &str) -> (out: Option<String>)
    ensures
        match method_of(identity@) {
            Some(method) => out matches Some(m) && m@ == method,
            None => out is None,
        },
{
    let chars = chars_of(identity);
    proof {
        reveal_strlit("did:");
    }
    if chars.len() < 4 {
        return None;
    }
    if chars[0] != 'd' || chars[1] != 'i' || chars[2] != 'd' || chars[3] != ':' {
        assert(chars@.subrange(0, 4)[0] == chars@[0]);
        assert(chars@.subrange(0, 4)[1] == chars@[1]);
        assert(chars@.subrange(0, 4)[2] == chars@[2]);
        assert(chars@.subrange(0, 4)[3] == chars@[3]);
        return None;
    }
    assert(chars@.subrange(0, 4) =~= "did:"@);
    let end = find_char(&chars, ':', 4);
    if end == 4 || end >= chars.len() {
        return None;
    }
    Some(identity.substring_char(4, end).to_owned())
}

/// What the cache holds for one identity.
enum Slot {
    Ready { document: IdentityDocument, fetched_at: u64 },
    Pending { waiters: u64 },
    Failed { error: ResolveError, waiters: u64 },
}

/// One entry of the cache.
struct CacheEntry {
    identity: String,
    slot: Slot,
}

impl View for Slot {
    type V = SlotView;

    closed spec fn view(&self) -> SlotView {
        match self {
            Slot::Ready { document, fetched_at } => SlotView::Ready {
                document: document@,
                fetched_at: *fetched_at,
            },
            Slot::Pending { waiters } => SlotView::Pending { waiters: *waiters },
            Slot::Failed { error, waiters } => SlotView::Failed {
                error: *error,
                waiters: *waiters,
            },
        }
    }
}

/// Whether `entries` holds an entry for `identity` at `i`.
spec fn is_entry(entries: Seq<CacheEntry>, identity: Seq<char>, i: int) -> bool {
    0 <= i < entries.len() && entries[i].identity@ == identity
}

/// The cache that a list of entries stands for.
spec fn cache_of(entries: Seq<CacheEntry>) -> Map<Seq<char>, SlotView> {
    Map::new(
        |identity: Seq<char>| exists|i: int| is_entry(entries, identity, i),
        |identity: Seq<char>| entries[choose|i: int| is_entry(entries, identity, i)].slot@,
    )
}

/// No identity has two entries.
spec fn distinct(entries: Seq<CacheEntry>) -> bool {
    forall|i: int, j: int|
        0 <= i < j < entries.len() ==> entries[i].identity@ != entries[j].identity@
}

proof fn lemma_entry(entries: Seq<CacheEntry>, i: int)
    requires
        distinct(entries),
        0 <= i < entries.len(),
    ensures
        cache_of(entries).contains_key(entries[i].identity@),
        cache_of(entries)[entries[i].identity@] == entries[i].slot@,
{
    let identity = entries[i].identity@;
    assert(is_entry(entries, identity, i));
    let k = choose|k: int| is_entry(entries, identity, k);
    assert(k == i);
}

proof fn lemma_push(entries: Seq<CacheEntry>, entry: CacheEntry)
    requires
        distinct(entries),
        !cache_of(entries).contains_key(entry.identity@),
    ensures
        distinct(entries.push(entry)),
        cache_of(entries.push(entry)) == cache_of(entries).insert(entry.identity@, entry.slot@),
{
    let after = entries.push(entry);
    assert forall|i: int, j: int| 0 <= i < j < after.len() implies after[i].identity@
        != after[j].identity@ by {
        if j == entries.len() {
            assert(is_entry(entries, after[i].identity@, i));
        }
    }
    assert forall|identity: Seq<char>|
        cache_of(after).contains_key(identity) <==> cache_of(entries).insert(
            entry.identity@,
            entry.slot@,
        ).contains_key(identity) by {
        if cache_of(after).contains_key(identity) {
            let i = choose|i: int| is_entry(after, identity, i);
            if i < entries.len() {
                assert(is_entry(entries, identity, i));
            }
        }
        if cache_of(entries).contains_key(identity) {
            let i = choose|i: int| is_entry(entries, identity, i);
            assert(is_entry(after, identity, i));
        }
        if identity == entry.identity@ {
            assert(is_entry(after, identity, entries.len() as int));
        }
    }
    assert forall|identity: Seq<char>| cache_of(after).contains_key(identity) implies cache_of(
        after,
    )[identity] == cache_of(entries).insert(entry.identity@, entry.slot@)[identity] by {
        let i = choose|i: int| is_entry(after, identity, i);
        lemma_entry(after, i);
        if i < entries.len() {
            lemma_entry(entries, i);
        }
    }
    assert(cache_of(after) =~= cache_of(entries).insert(entry.identity@, entry.slot@));
}

proof fn lemma_remove(entries: Seq<CacheEntry>, at: int)
    requires
        distinct(entries),
        0 <= at < entries.len(),
    ensures
        distinct(entries.remove(at)),
        cache_of(entries.remove(at)) == cache_of(entries).remove(entries[at].identity@),
{
    let after = entries.remove(at);
    let gone = entries[at].identity@;
    assert forall|i: int| 0 <= i < after.len() implies after[i] == entries[if i < at {
        i
    } else {
        i + 1
    }] by {}
    assert forall|identity: Seq<char>|
        cache_of(after).contains_key(identity) <==> cache_of(entries).remove(gone).contains_key(
            identity,
        ) by {
        if cache_of(after).contains_key(identity) {
            let i = choose|i: int| is_entry(after, identity, i);
            let j = if i < at {
                i
            } else {
                i + 1
            };
            assert(is_entry(entries, identity, j));
        }
        if cache_of(entries).contains_key(identity) && identity != gone {
            let j = choose|j: int| is_entry(entries, identity, j);
            let i = if j < at {
                j
            } else {
                j - 1
            };
            assert(is_entry(after, identity, i));
        }
    }
    assert forall|identity: Seq<char>| cache_of(after).contains_key(identity) implies cache_of(
        after,
    )[identity] == cache_of(entries).remove(gone)[identity] by {
        let i = choose|i: int| is_entry(after, identity, i);
        let j = if i < at {
            i
        } else {
            i + 1
        };
        lemma_entry(after, i);
        lemma_entry(entries, j);
    }
    assert(cache_of(after) =~= cache_of(entries).remove(gone));
}

/// The resolver's cache and its single-flight discipline. The resolver
/// decides; its caller holds the handlers, runs the fetch that a request
/// starts, and reports how it ended.
pub struct Resolver {
    handlers: Vec<String>,
    window: u64,
    entries: Vec<CacheEntry>,
}

impl View for Resolver {
    type V = ResolverView;

    closed spec fn view(&self) -> ResolverView {
        ResolverView {
            handlers: Set::new(
                |method: Seq<char>|
                    exists|i: int| 0 <= i < self.handlers@.len() && self.handlers@[i]@ == method,
            ),
            window: self.window,
            cache: cache_of(self.entries@),
        }
    }
}

impl Resolution {
    /// The document that was resolved.
    pub open spec fn document(self) -> IdentityDocument {
        match self {
            Resolution::Active(document) => document,
            Resolution::Deactivated(document) => document,
        }
    }

    /// A document is handed out as deactivated exactly where it is marked so.
    pub open spec fn consistent(self) -> bool {
        self is Deactivated <==> self.document().deactivated
    }

    /// Wraps a document by its mark.
    pub fn of(document: IdentityDocument) -> (out: Resolution)
        ensures
            out.document() == document,
            out.consistent(),
    {
        if document.deactivated {
            Resolution::Deactivated(document)
        } else {
            Resolution::Active(document)
        }
    }
}

impl Resolver {
    /// No identity has two entries in the cache.
    pub closed spec fn wf(&self) -> bool {
        distinct(self.entries@)
    }

    /// A resolver without handlers and with an empty cache, in which a
    /// document stays fresh for `window` seconds.
    pub fn new(window: u64) -> (resolver: Resolver)
        ensures
            resolver.wf(),
            resolver@.handlers == Set::<Seq<char>>::empty(),
            resolver@.window == window,
            resolver@.cache == Map::<Seq<char>, SlotView>::empty(),
    {
        let resolver = Resolver { handlers: Vec::new(), window, entries: Vec::new() };
        assert(resolver@.handlers =~= Set::<Seq<char>>::empty());
        assert(resolver@.cache =~= Map::<Seq<char>, SlotView>::empty());
        resolver
    }

    /// Registers that the caller holds a handler for `method`.
    pub fn attach_handler(&mut self, method: String)
        requires
            old(self).wf(),
        ensures
            final(self).wf(),
            final(self)@ == (ResolverView {
                handlers: old(self)@.handlers.insert(method@),
                ..old(self)@
            }),
    {
        self.handlers.push(method);
        assert(self@.handlers =~= old(self)@.handlers.insert(method@)) by {
            assert forall|m: Seq<char>| old(self)@.handlers.insert(method@).contains(
                m,
            ) implies self@.handlers.contains(m) by {
                if m == method@ {
                    assert(self.handlers@[old(self).handlers@.len() as int]@ == m);
                } else {
                    let i = choose|i: int|
                        0 <= i < old(self).handlers@.len() && old(self).handlers@[i]@ == m;
                    assert(self.handlers@[i]@ == m);
                }
            }
            assert forall|m: Seq<char>| self@.handlers.contains(m) implies old(
                self,
            )@.handlers.insert(method@).contains(m) by {
                let i = choose|i: int| 0 <= i < self.handlers@.len() && self.handlers@[i]@ == m;
                if i < old(self).handlers@.len() {
                    assert(old(self).handlers@[i]@ == m);
                }
            }
        }
    }

    /// Whether a handler is registered for `method`.
    pub fn has_handler(&self, method: &String) -> (yes: bool)
        ensures
            yes == self@.handlers.contains(method@),
    {
        let mut i: usize = 0;
        while i < self.handlers.len()
            invariant
                i <= self.handlers.len(),
                forall|j: int| 0 <= j < i ==> self.handlers@[j]@ != method@,
            decreases self.handlers.len() - i,
        {
            if self.handlers[i] == *method {
                return true;
            }
            i += 1;
        }
        false
    }

    /// The place of the entry for `identity`, if the cache holds one.
    fn position(&self, identity: &String) -> (at: Option<usize>)
        ensures
            match at {
                Some(i) => is_entry(self.entries@, identity@, i as int),
                None => !cache_of(self.entries@).contains_key(identity@),
            },
    {
        let mut i: usize = 0;
        while i < self.entries.len()
            invariant
                i <= self.entries.len(),
                forall|j: int| 0 <= j < i ==> !is_entry(self.entries@, identity@, j),
            decreases self.entries.len() - i,
        {
            if self.entries[i].identity == *identity {
                return Some(i);
            }
            i += 1;
        }
        None
    }

    /// Puts `slot` in the place of what the cache holds for `identity`, or
    /// clears the place where there is no slot to put.
    fn put(&mut self, identity: String, at: Option<usize>, slot: Option<Slot>)
        requires
            old(self).wf(),
            match at {
                Some(i) => is_entry(old(self).entries@, identity@, i as int),
                None => !old(self)@.cache.contains_key(identity@),
            },
        ensures
            final(self).wf(),
            final(self)@ == (ResolverView {
                cache: match slot {
                    Some(s) => old(self)@.cache.insert(identity@, s@),
                    None => old(self)@.cache.remove(identity@),
                },
                ..old(self)@
            }),
    {
        match at {
            Some(i) => {
                proof {
                    lemma_remove(self.entries@, i as int);
                }
                self.entries.remove(i);
            },
            None => {
                assert(old(self)@.cache.remove(identity@) =~= old(self)@.cache);
            },
        }
        match slot {
            Some(s) => {
                let entry = CacheEntry { identity, slot: s };
                proof {
                    lemma_push(self.entries@, entry);
                    assert(old(self)@.cache.remove(identity@).insert(identity@, s@) =~= old(
                        self,
                    )@.cache.insert(identity@, s@));
                }
                self.entries.push(entry);
            },
            None => {},
        }
    }

    /// Whether a fetch for `identity` is in flight.
    pub fn is_pending(&self, identity: &str) -> (yes: bool)
        requires
            self.wf(),
        ensures
            yes == in_flight(self@, identity@),
    {
        let wanted = String::from_str(identity);
        match self.position(&wanted) {
            None => false,
            Some(i) => {
                proof {
                    lemma_entry(self.entries@, i as int);
                }
                match &self.entries[i].slot {
                    Slot::Pending { .. } => true,
                    _ => false,
                }
            },
        }
    }

    /// Takes a request to resolve `identity` at time `now`, in seconds.
    ///
    /// A fresh cached document is handed out at once. While a fetch for the
    /// identity is in flight the caller is told to wait for it, and is
    /// counted among those who wait. Otherwise the identity is marked as
    /// pending and the caller is told to fetch with the handler of its
    /// method; where no handler is registered for it, the request fails with
    /// `UnregisteredMethod`.
    pub fn begin_resolve(&mut self, identity: &str, now: u64) -> (step: Step)
        requires
            old(self).wf(),
        ensures
            final(self).wf(),
            final(self)@ == after_begin(old(self)@, identity@, now),
            match next_step(old(self)@, identity@, now) {
                StepView::Hit(document) => step matches Step::Hit(found) && found.document()@
                    == document && found.consistent(),
                StepView::Wait => step is Wait,
                StepView::Fetch(method) => step matches Step::Fetch(m) && m@ == method,
                StepView::Fail(error) => step matches Step::Fail(e) && e == error,
            },
    {
        let wanted = String::from_str(identity);
        let at = self.position(&wanted);
        match at {
            Some(i) => {
                proof {
                    lemma_entry(self.entries@, i as int);
                }
                match &self.entries[i].slot {
                    Slot::Pending { waiters } => {
                        let more = if *waiters < u64::MAX {
                            *waiters + 1
                        } else {
                            *waiters
                        };
                        self.put(wanted, at, Some(Slot::Pending { waiters: more }));
                        return Step::Wait;
                    },
                    Slot::Ready { document, fetched_at } => {
                        if now <= *fetched_at || now - *fetched_at <= self.window {
                            return Step::Hit(Resolution::of(document.duplicate()));
                        }
                    },
                    Slot::Failed { .. } => {},
                }
            },
            None => {},
        }
        let method = match method_name(identity) {
            Some(method) => method,
            None => {
                return Step::Fail(ResolveError::UnregisteredMethod);
            },
        };
        if !self.has_handler(&method) {
            return Step::Fail(ResolveError::UnregisteredMethod);
        }
        self.put(wanted, at, Some(Slot::Pending { waiters: 0 }));
        Step::Fetch(method)
    }

    /// Takes the outcome of the fetch for `identity`, which ended at time
    /// `now`. Where the identity is pending, a document that was found is
    /// cached; a failure is kept for the callers that wait for the fetch,
    /// and clears the mark where none waits, so that the next request
    /// fetches again. Where the identity is not pending, the cache stays as
    /// it is.
    ///
    /// Answers with what the caller that fetched is to get: the document,
    /// marked as deactivated where it is, or `NotFound` or
    /// `TransientFetchError`. The callers that waited get the same from
    /// `take_outcome`.
    pub fn complete_fetch(&mut self, identity: &str, outcome: FetchOutcome, now: u64) -> (out:
        Result<Resolution, ResolveError>)
        requires
            old(self).wf(),
        ensures
            final(self).wf(),
            final(self)@ == after_complete(old(self)@, identity@, outcome.spec_result(), now),
            match outcome {
                FetchOutcome::Found(document) => out matches Ok(found) && found.document()
                    == document && found.consistent(),
                FetchOutcome::NotFound => out == Err::<Resolution, ResolveError>(
                    ResolveError::NotFound,
                ),
                FetchOutcome::TransientError => out == Err::<Resolution, ResolveError>(
                    ResolveError::TransientFetchError,
                ),
            },
    {
        let wanted = String::from_str(identity);
        let at = self.position(&wanted);
        let waiting = match at {
            None => None,
            Some(i) => {
                proof {
                    lemma_entry(self.entries@, i as int);
                }
                match &self.entries[i].slot {
                    Slot::Pending { waiters } => Some(*waiters),
                    _ => None,
                }
            },
        };
        match waiting {
            None => {},
            Some(waiters) => {
                let slot = match &outcome {
                    FetchOutcome::Found(document) => Some(
                        Slot::Ready { document: document.duplicate(), fetched_at: now },
                    ),
                    FetchOutcome::NotFound => if waiters == 0 {
                        None
                    } else {
                        Some(Slot::Failed { error: ResolveError::NotFound, waiters })
                    },
                    FetchOutcome::TransientError => if waiters == 0 {
                        None
                    } else {
                        Some(Slot::Failed { error: ResolveError::TransientFetchError, waiters })
                    },
                };
                self.put(wanted, at, slot);
            },
        }
        match outcome {
            FetchOutcome::Found(document) => Ok(Resolution::of(document)),
            FetchOutcome::NotFound => Err(ResolveError::NotFound),
            FetchOutcome::TransientError => Err(ResolveError::TransientFetchError),
        }
    }

    /// Hands a caller that waited for the fetch for `identity` the outcome
    /// of that fetch: the document that it brought, or the error that it
    /// failed with. A failure is handed to each caller that waited and is
    /// then forgotten. There is nothing to hand out while the fetch is in
    /// flight, and nothing after it was cancelled: the caller then asks
    /// again.
    pub fn take_outcome(&mut self, identity: &str) -> (out: Option<Result<Resolution, ResolveError>>)
        requires
            old(self).wf(),
        ensures
            final(self).wf(),
            final(self)@ == after_taken(old(self)@, identity@),
            match flight_outcome(old(self)@, identity@) {
                Some(Ok(document)) => out matches Some(Ok(found)) && found.document()@ == document
                    && found.consistent(),
                Some(Err(error)) => out == Some(Err::<Resolution, ResolveError>(error)),
                None => out is None,
            },
    {
        let wanted = String::from_str(identity);
        let at = self.position(&wanted);
        match at {
            None => None,
            Some(i) => {
                proof {
                    lemma_entry(self.entries@, i as int);
                }
                match &self.entries[i].slot {
                    Slot::Pending { .. } => None,
                    Slot::Ready { document, .. } => Some(Ok(Resolution::of(document.duplicate()))),
                    Slot::Failed { error, waiters } => {
                        let error = *error;
                        let slot = if *waiters <= 1 {
                            None
                        } else {
                            Some(Slot::Failed { error, waiters: *waiters - 1 })
                        };
                        self.put(wanted, at, slot);
                        Some(Err(error))
                    },
                }
            },
        }
    }

    /// Takes note that the fetch for `identity` was cancelled: a pending
    /// identity becomes a miss again, so that the next request fetches and
    /// no one waits for ever.
    pub fn cancel_fetch(&mut self, identity: &str)
        requires
            old(self).wf(),
        ensures
            final(self).wf(),
            final(self)@ == after_cancel(old(self)@, identity@),
    {
        let wanted = String::from_str(identity);
        let at = self.position(&wanted);
        match at {
            None => {},
            Some(i) => {
                proof {
                    lemma_entry(self.entries@, i as int);
                }
                let pending = match &self.entries[i].slot {
                    Slot::Pending { .. } => true,
                    _ => false,
                };
                if pending {
                    self.put(wanted, at, None);
                }
            },
        }
    }
}

impl FetchOutcome {
    /// The outcome as a mathematical value: the document, or the error that
    /// the failure is reported as.
    pub open spec fn spec_result(self) -> Result<DocumentView, ResolveError> {
        match self {
            FetchOutcome::Found(document) => Ok(document@),
            FetchOutcome::NotFound => Err(ResolveError::NotFound),
            FetchOutcome::TransientError => Err(ResolveError::TransientFetchError),
        }
    }
}

} // verus!
