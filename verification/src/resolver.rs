//! The resolver's decisions, as a state machine.
//!
//! The resolver serves one batch of release identifiers at a time. For each
//! identifier, in order, it consults the store; on a miss it fetches the
//! release from the metadata service, stores the new record, and waits out
//! the rest of the rate-limit window that began just before the call. The
//! first failure abandons the batch: the originator gets the error and no
//! partial list.
//!
//! The machine performs no I/O. Each step takes the outcome of the previous
//! action as an [`Event`] and answers with the next [`Action`] to perform.
//! Instants are milliseconds on the caller's monotonic clock.

use crate::links::strings_view;
use crate::musicbrainz::{CachedRelease, MbzRelease, ReleaseView};
use vstd::prelude::*;

verus! {

/// Minimum spacing between the starts of two calls to the metadata service,
/// in milliseconds.
pub const WINDOW_MS: u64 = 1000;

/// Number of batches that may wait in the resolver's queue; a producer that
/// finds the queue full waits for a free slot.
pub const QUEUE_CAPACITY: usize = 100;

/// What the resolver is waiting for.
#[derive(Clone, Copy, Debug, PartialEq, Eq, Structural)]
pub enum Stage {
    /// No batch in flight: waiting for the next batch.
    Idle,
    /// Waiting for the store's answer to a lookup.
    Looking,
    /// Waiting for the metadata service's answer.
    Fetching,
    /// Waiting for the store to take the new record.
    Inserting,
    /// Waiting out the window after a stored fetch, before the next identifier.
    Pausing,
    /// Waiting for the reply to reach the batch's originator.
    Replying,
    /// Waiting out the window after an abandoned batch.
    Cooling,
}

/// The outcome of the action that the resolver asked for last.
#[derive(Debug)]
pub enum Event {
    /// A batch was taken from the queue.
    Batch { ids: Vec<String> },
    /// The store holds the identifier, with these fields.
    Found { has_front: bool, urls: String },
    /// The store does not hold the identifier; `now` is the present instant.
    Missing { now: u64 },
    /// The lookup failed in the storage layer.
    LookupFailed { message: String },
    /// The metadata service answered and the answer was decoded.
    Fetched { release: MbzRelease },
    /// The request did not get through.
    TransportFailed { message: String },
    /// The answer could not be decoded.
    DecodeFailed { message: String },
    /// The store took the record.
    Inserted,
    /// The insert failed in the storage layer.
    InsertFailed { message: String },
    /// The instant slept for has come.
    Woke,
    /// The reply was handed to the originator.
    Replied,
}

/// What the resolver asks its driver to do next.
#[derive(Debug)]
pub enum Action {
    /// Take the next batch from the queue.
    AwaitBatch,
    /// Look the identifier up in the store.
    Lookup { id: String },
    /// Issue the one request for the identifier to the metadata service.
    Fetch { id: String },
    /// Add the record to the store.
    Insert { record: CachedRelease },
    /// Sleep until the instant.
    Sleep { until: u64 },
    /// Send the batch's outcome to its originator.
    Reply { response: Result<Vec<CachedRelease>, String> },
    /// The event does not answer the pending action; nothing changed, and the
    /// pending action still stands.
    Unexpected,
}

/// An event as plain values.
pub enum EventView {
    Batch { ids: Seq<Seq<char>> },
    Found { has_front: bool, urls: Seq<char> },
    Missing { now: u64 },
    LookupFailed { message: Seq<char> },
    Fetched { has_front: bool, urls: Seq<char> },
    TransportFailed { message: Seq<char> },
    DecodeFailed { message: Seq<char> },
    Inserted,
    InsertFailed { message: Seq<char> },
    Woke,
    Replied,
}

/// An action as plain values.
pub enum ActionView {
    AwaitBatch,
    Lookup { id: Seq<char> },
    Fetch { id: Seq<char> },
    Insert { record: ReleaseView },
    Sleep { until: u64 },
    Reply { response: Result<Seq<ReleaseView>, Seq<char>> },
    Unexpected,
}

/// The resolver's state as plain values.
pub struct ResolverView {
    pub stage: Stage,
    /// The identifiers of the batch in flight.
    pub ids: Seq<Seq<char>>,
    /// The records resolved so far, one for each leading identifier.
    pub results: Seq<ReleaseView>,
    /// End of the current rate-limit window.
    pub deadline: u64,
    /// The record handed to the store and not yet acknowledged.
    pub pending: Option<ReleaseView>,
    /// Whether the window is waited out after the reply.
    pub cooldown: bool,
}

/// The records of a vector as plain values.
pub open spec fn records_view(records: Seq<CachedRelease>) -> Seq<ReleaseView> {
    records.map_values(|r: CachedRelease| r@)
}

impl View for Event {
    type V = EventView;

    open spec fn view(&self) -> EventView {
        match *self {
            Event::Batch { ids } => EventView::Batch { ids: strings_view(ids@) },
            Event::Found { has_front, urls } => EventView::Found { has_front, urls: urls@ },
            Event::Missing { now } => EventView::Missing { now },
            Event::LookupFailed { message } => EventView::LookupFailed { message: message@ },
            Event::Fetched { release } => EventView::Fetched {
                has_front: release.cached_view(Seq::empty()).has_front,
                urls: release.cached_view(Seq::empty()).urls,
            },
            Event::TransportFailed { message } => EventView::TransportFailed {
                message: message@,
            },
            Event::DecodeFailed { message } => EventView::DecodeFailed { message: message@ },
            Event::Inserted => EventView::Inserted,
            Event::InsertFailed { message } => EventView::InsertFailed { message: message@ },
            Event::Woke => EventView::Woke,
            Event::Replied => EventView::Replied,
        }
    }
}

impl View for Action {
    type V = ActionView;

    open spec fn view(&self) -> ActionView {
        match *self {
            Action::AwaitBatch => ActionView::AwaitBatch,
            Action::Lookup { id } => ActionView::Lookup { id: id@ },
            Action::Fetch { id } => ActionView::Fetch { id: id@ },
            Action::Insert { record } => ActionView::Insert { record: record@ },
            Action::Sleep { until } => ActionView::Sleep { until },
            Action::Reply { response } => ActionView::Reply {
                response: match response {
                    Ok(records) => Ok(records_view(records@)),
                    Err(message) => Err(message@),
                },
            },
            Action::Unexpected => ActionView::Unexpected,
        }
    }
}

/// The state between batches.
pub open spec fn idle_view(deadline: u64) -> ResolverView {
    ResolverView {
        stage: Stage::Idle,
        ids: Seq::empty(),
        results: Seq::empty(),
        deadline,
        pending: None,
        cooldown: false,
    }
}

/// The invariant of the resolver's state: the records resolved so far answer
/// the leading identifiers of the batch, one for one, and an action on an
/// identifier is pending only while one is left.
pub open spec fn well_formed(s: ResolverView) -> bool {
    &&& s.results.len() <= s.ids.len()
    &&& forall|i: int| 0 <= i < s.results.len() ==> (#[trigger] s.results[i]).id == s.ids[i]
    &&& (s.stage == Stage::Looking || s.stage == Stage::Fetching || s.stage == Stage::Inserting)
        ==> s.results.len() < s.ids.len()
    &&& s.stage == Stage::Inserting ==> s.pending is Some && s.pending->0.id
        == s.ids[s.results.len() as int]
}

/// The identifier that the resolver is working on.
pub open spec fn current_id(s: ResolverView) -> Seq<char>
    recommends
        s.results.len() < s.ids.len(),
{
    s.ids[s.results.len() as int]
}

/// Moves on to the next identifier, or replies with the full list when none
/// is left.
pub open spec fn advance(ids: Seq<Seq<char>>, results: Seq<ReleaseView>, deadline: u64) -> (
    ResolverView,
    ActionView,
) {
    if results.len() < ids.len() {
        (
            ResolverView {
                stage: Stage::Looking,
                ids,
                results,
                deadline,
                pending: None,
                cooldown: false,
            },
            ActionView::Lookup { id: ids[results.len() as int] },
        )
    } else {
        (
            ResolverView {
                stage: Stage::Replying,
                ids: Seq::empty(),
                results: Seq::empty(),
                deadline,
                pending: None,
                cooldown: false,
            },
            ActionView::Reply { response: Ok(results) },
        )
    }
}

/// Abandons the batch: the originator gets the error, and the window is
/// waited out afterwards where `cooldown` says so.
pub open spec fn abandon(message: Seq<char>, cooldown: bool, deadline: u64) -> (
    ResolverView,
    ActionView,
) {
    (
        ResolverView {
            stage: Stage::Replying,
            ids: Seq::empty(),
            results: Seq::empty(),
            deadline,
            pending: None,
            cooldown,
        },
        ActionView::Reply { response: Err(message) },
    )
}

/// The end of the window that begins at `now`.
pub open spec fn window_end(now: u64) -> int {
    now + WINDOW_MS
}

/// The resolver's transition function: the state and the action that follow
/// state `s` on event `e`. An event that does not answer the pending action
/// leaves the state as it is.
pub open spec fn transition(s: ResolverView, e: EventView) -> (ResolverView, ActionView) {
    match (s.stage, e) {
        (Stage::Idle, EventView::Batch { ids }) => advance(ids, Seq::empty(), s.deadline),
        (Stage::Looking, EventView::Found { has_front, urls }) => advance(
            s.ids,
            s.results.push(ReleaseView { id: current_id(s), has_front, urls }),
            s.deadline,
        ),
        (Stage::Looking, EventView::Missing { now }) => (
            ResolverView { stage: Stage::Fetching, deadline: window_end(now) as u64, ..s },
            ActionView::Fetch { id: current_id(s) },
        ),
        (Stage::Looking, EventView::LookupFailed { message }) => abandon(
            message,
            false,
            s.deadline,
        ),
        (Stage::Fetching, EventView::Fetched { has_front, urls }) => {
            let record = ReleaseView { id: current_id(s), has_front, urls };
            (
                ResolverView { stage: Stage::Inserting, pending: Some(record), ..s },
                ActionView::Insert { record },
            )
        },
        (Stage::Fetching, EventView::TransportFailed { message }) => abandon(
            message,
            false,
            s.deadline,
        ),
        (Stage::Fetching, EventView::DecodeFailed { message }) => abandon(
            message,
            true,
            s.deadline,
        ),
        (Stage::Inserting, EventView::Inserted) => (
            ResolverView {
                stage: Stage::Pausing,
                results: s.results.push(s.pending->0),
                pending: None,
                ..s
            },
            ActionView::Sleep { until: s.deadline },
        ),
        (Stage::Inserting, EventView::InsertFailed { message }) => abandon(
            message,
            true,
            s.deadline,
        ),
        (Stage::Pausing, EventView::Woke) => advance(s.ids, s.results, s.deadline),
        (Stage::Replying, EventView::Replied) => if s.cooldown {
            (
                ResolverView { stage: Stage::Cooling, cooldown: false, ..s },
                ActionView::Sleep { until: s.deadline },
            )
        } else {
            (idle_view(s.deadline), ActionView::AwaitBatch)
        },
        (Stage::Cooling, EventView::Woke) => (idle_view(s.deadline), ActionView::AwaitBatch),
        _ => (s, ActionView::Unexpected),
    }
}

/// The resolver: the batch in flight and what is pending for it.
#[derive(Debug)]
pub struct MusicBrainz {
    stage: Stage,
    ids: Vec<String>,
    results: Vec<CachedRelease>,
    deadline: u64,
    pending: Option<CachedRelease>,
    cooldown: bool,
}

impl View for MusicBrainz {
    type V = ResolverView;

    closed spec fn view(&self) -> ResolverView {
        ResolverView {
            stage: self.stage,
            ids: strings_view(self.ids@),
            results: records_view(self.results@),
            deadline: self.deadline,
            pending: match self.pending {
                Some(record) => Some(record@),
                None => None,
            },
            cooldown: self.cooldown,
        }
    }
}

impl MusicBrainz {
    /// Whether the state meets the resolver's invariant.
    pub open spec fn wf(&self) -> bool {
        well_formed(self@)
    }

    /// A resolver with no batch in flight.
    pub fn new() -> (out: (MusicBrainz, Action))
        ensures
            out.0.wf(),
            out.0@ == idle_view(0),
            out.1@ == ActionView::AwaitBatch,
    {
        let resolver = MusicBrainz {
            stage: Stage::Idle,
            ids: Vec::new(),
            results: Vec::new(),
            deadline: 0,
            pending: None,
            cooldown: false,
        };
        assert(strings_view(resolver.ids@) =~= Seq::empty());
        assert(records_view(resolver.results@) =~= Seq::empty());
        (resolver, Action::AwaitBatch)
    }

    /// What the resolver is waiting for.
    pub fn stage(&self) -> (out: Stage)
        ensures
            out == self@.stage,
    {
        self.stage
    }

    fn idle(deadline: u64) -> (out: (MusicBrainz, Action))
        ensures
            out.0@ == idle_view(deadline),
            out.1@ == ActionView::AwaitBatch,
    {
        let resolver = MusicBrainz {
            stage: Stage::Idle,
            ids: Vec::new(),
            results: Vec::new(),
            deadline,
            pending: None,
            cooldown: false,
        };
        assert(strings_view(resolver.ids@) =~= Seq::empty());
        assert(records_view(resolver.results@) =~= Seq::empty());
        (resolver, Action::AwaitBatch)
    }

    fn proceed(ids: Vec<String>, results: Vec<CachedRelease>, deadline: u64) -> (out: (
        MusicBrainz,
        Action,
    ))
        ensures
            (out.0@, out.1@) == advance(strings_view(ids@), records_view(results@), deadline),
    {
        if results.len() < ids.len() {
            let id = ids[results.len()].clone();
            let resolver = MusicBrainz {
                stage: Stage::Looking,
                ids,
                results,
                deadline,
                pending: None,
                cooldown: false,
            };
            (resolver, Action::Lookup { id })
        } else {
            let resolver = MusicBrainz {
                stage: Stage::Replying,
                ids: Vec::new(),
                results: Vec::new(),
                deadline,
                pending: None,
                cooldown: false,
            };
            assert(strings_view(resolver.ids@) =~= Seq::empty());
            assert(records_view(resolver.results@) =~= Seq::empty());
            (resolver, Action::Reply { response: Ok(results) })
        }
    }

    fn give_up(message: String, cooldown: bool, deadline: u64) -> (out: (MusicBrainz, Action))
        ensures
            (out.0@, out.1@) == abandon(message@, cooldown, deadline),
    {
        let resolver = MusicBrainz {
            stage: Stage::Replying,
            ids: Vec::new(),
            results: Vec::new(),
            deadline,
            pending: None,
            cooldown,
        };
        assert(strings_view(resolver.ids@) =~= Seq::empty());
        assert(records_view(resolver.results@) =~= Seq::empty());
        (resolver, Action::Reply { response: Err(message) })
    }

    /// Takes the outcome of the pending action and decides what comes next.
    ///
    /// The end of a window that begins at `now` must be an instant that the
    /// clock can show.
    pub fn step(self, event: Event) -> (out: (MusicBrainz, Action))
        requires
            self.wf(),
            event matches Event::Missing { now } ==> window_end(now) <= u64::MAX,
        ensures
            out.0.wf(),
            (out.0@, out.1@) == transition(self@, event@),
    {
        proof {
            lemma_transition_keeps_well_formed(self@, event@);
        }
        match self.stage {
            Stage::Idle => match event {
                Event::Batch { ids } => {
                    let none: Vec<CachedRelease> = Vec::new();
                    assert(records_view(none@) =~= Seq::empty());
                    Self::proceed(ids, none, self.deadline)
                },
                _ => (self, Action::Unexpected),
            },
            Stage::Looking => match event {
                Event::Found { has_front, urls } => {
                    let ghost before = records_view(self.results@);
                    let mut results = self.results;
                    let record = CachedRelease {
                        id: self.ids[results.len()].clone(),
                        has_front,
                        urls,
                    };
                    results.push(record);
                    assert(records_view(results@) =~= before.push(record@));
                    Self::proceed(self.ids, results, self.deadline)
                },
                Event::Missing { now } => {
                    let id = self.ids[self.results.len()].clone();
                    let resolver = MusicBrainz {
                        stage: Stage::Fetching,
                        ids: self.ids,
                        results: self.results,
                        deadline: now + WINDOW_MS,
                        pending: self.pending,
                        cooldown: self.cooldown,
                    };
                    (resolver, Action::Fetch { id })
                },
                Event::LookupFailed { message } => Self::give_up(message, false, self.deadline),
                _ => (self, Action::Unexpected),
            },
            Stage::Fetching => match event {
                Event::Fetched { release } => {
                    let record = release.to_cached(self.ids[self.results.len()].as_str());
                    let resolver = MusicBrainz {
                        stage: Stage::Inserting,
                        ids: self.ids,
                        results: self.results,
                        deadline: self.deadline,
                        pending: Some(record.clone()),
                        cooldown: self.cooldown,
                    };
                    (resolver, Action::Insert { record })
                },
                Event::TransportFailed { message } => Self::give_up(
                    message,
                    false,
                    self.deadline,
                ),
                Event::DecodeFailed { message } => Self::give_up(message, true, self.deadline),
                _ => (self, Action::Unexpected),
            },
            Stage::Inserting => match event {
                Event::Inserted => {
                    let ghost before = records_view(self.results@);
                    let mut results = self.results;
                    match self.pending {
                        Some(record) => {
                            results.push(record);
                            assert(records_view(results@) =~= before.push(record@));
                        },
                        None => {},
                    }
                    let resolver = MusicBrainz {
                        stage: Stage::Pausing,
                        ids: self.ids,
                        results,
                        deadline: self.deadline,
                        pending: None,
                        cooldown: self.cooldown,
                    };
                    (resolver, Action::Sleep { until: self.deadline })
                },
                Event::InsertFailed { message } => Self::give_up(message, true, self.deadline),
                _ => (self, Action::Unexpected),
            },
            Stage::Pausing => match event {
                Event::Woke => Self::proceed(self.ids, self.results, self.deadline),
                _ => (self, Action::Unexpected),
            },
            Stage::Replying => match event {
                Event::Replied => {
                    if self.cooldown {
                        let resolver = MusicBrainz {
                            stage: Stage::Cooling,
                            ids: self.ids,
                            results: self.results,
                            deadline: self.deadline,
                            pending: self.pending,
                            cooldown: false,
                        };
                        (resolver, Action::Sleep { until: self.deadline })
                    } else {
                        Self::idle(self.deadline)
                    }
                },
                _ => (self, Action::Unexpected),
            },
            Stage::Cooling => match event {
                Event::Woke => Self::idle(self.deadline),
                _ => (self, Action::Unexpected),
            },
        }
    }
}

/// Every transition keeps the resolver's invariant.
pub proof fn lemma_transition_keeps_well_formed(s: ResolverView, e: EventView)
    requires
        well_formed(s),
    ensures
        well_formed(transition(s, e).0),
{
}

} // verus!
