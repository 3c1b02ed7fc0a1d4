//! Whole batches, served against a world that does what it is asked: a store
//! that keeps what it takes and gives it back, and a metadata service that
//! answers each call. The world is a model; the laws below say what the
//! resolver's transition function makes of it.

use crate::laws::answers;
use crate::musicbrainz::ReleaseView;
use crate::resolver::{
    current_id, idle_view, transition, well_formed, window_end, ActionView, EventView,
    ResolverView, Stage, WINDOW_MS,
};
use vstd::prelude::*;

verus! {

/// The world around the resolver: what the store holds, by identifier; the
/// identifiers of the calls made to the metadata service so far, and the
/// instant at which each of them began; and the present instant.
pub struct World {
    pub store: Map<Seq<char>, (bool, Seq<char>)>,
    pub calls: Seq<Seq<char>>,
    pub starts: Seq<u64>,
    pub clock: u64,
}

/// The later of two instants.
pub open spec fn later(a: u64, b: u64) -> u64 {
    if a < b {
        b
    } else {
        a
    }
}

/// What the metadata service does on a call.
pub enum Answer {
    /// It answers, and the answer is read as these fields.
    Release { has_front: bool, urls: Seq<char> },
    /// The call fails: in decoding where `decode` is set, else in transport.
    Failure { decode: bool, message: Seq<char> },
}

/// The event that reports an answer.
pub open spec fn answer_event(answer: Answer) -> EventView {
    match answer {
        Answer::Release { has_front, urls } => EventView::Fetched { has_front, urls },
        Answer::Failure { decode, message } => if decode {
            EventView::DecodeFailed { message }
        } else {
            EventView::TransportFailed { message }
        },
    }
}

/// The record that the store gives back for `id`.
pub open spec fn stored_record(id: Seq<char>, fields: (bool, Seq<char>)) -> ReleaseView {
    ReleaseView { id, has_front: fields.0, urls: fields.1 }
}

/// Whether the action is one that the world performs; the others end a
/// batch.
pub open spec fn for_world(a: ActionView) -> bool {
    a is Lookup || a is Fetch || a is Insert || a is Sleep
}

/// The world performs an action: what it becomes, and the event that it
/// reports. Before a lookup the clock may have moved on to `tick`; it never
/// runs backwards. A call begins at the instant that was reported with the
/// miss before it. A sleep ends no earlier than asked.
pub open spec fn react(
    w: World,
    a: ActionView,
    service: spec_fn(Seq<char>) -> Answer,
    tick: u64,
) -> (World, EventView) {
    match a {
        ActionView::Lookup { id } => (
            World { clock: later(w.clock, tick), ..w },
            if w.store.contains_key(id) {
                EventView::Found { has_front: w.store[id].0, urls: w.store[id].1 }
            } else {
                EventView::Missing { now: later(w.clock, tick) }
            },
        ),
        ActionView::Fetch { id } => (
            World { calls: w.calls.push(id), starts: w.starts.push(w.clock), ..w },
            answer_event(service(id)),
        ),
        ActionView::Insert { record } => (
            World { store: w.store.insert(record.id, (record.has_front, record.urls)), ..w },
            EventView::Inserted,
        ),
        ActionView::Sleep { until } => (
            World { clock: later(w.clock, until), ..w },
            EventView::Woke,
        ),
        _ => (w, EventView::Woke),
    }
}

/// The resolver and the world take turns, for at most `steps` actions,
/// until the resolver replies. The clock's tick before each action is
/// `clock` of the number of steps left.
pub open spec fn drive(
    s: ResolverView,
    a: ActionView,
    w: World,
    service: spec_fn(Seq<char>) -> Answer,
    clock: spec_fn(nat) -> u64,
    steps: nat,
) -> (ResolverView, ActionView, World)
    decreases steps,
{
    if steps == 0 || !for_world(a) {
        (s, a, w)
    } else {
        let (w1, e) = react(w, a, service, clock(steps));
        let (s1, a1) = transition(s, e);
        drive(s1, a1, w1, service, clock, (steps - 1) as nat)
    }
}

/// An idle resolver takes the batch `ids` and serves it in world `w`.
pub open spec fn serve(
    deadline: u64,
    ids: Seq<Seq<char>>,
    w: World,
    service: spec_fn(Seq<char>) -> Answer,
    clock: spec_fn(nat) -> u64,
    steps: nat,
) -> (ResolverView, ActionView, World) {
    let (s, a) = transition(idle_view(deadline), EventView::Batch { ids });
    drive(s, a, w, service, clock, steps)
}

/// Whether `after` holds everything that `before` holds, unchanged.
pub open spec fn extends(
    before: Map<Seq<char>, (bool, Seq<char>)>,
    after: Map<Seq<char>, (bool, Seq<char>)>,
) -> bool {
    forall|k: Seq<char>| #[trigger]
        before.contains_key(k) ==> after.contains_key(k) && after[k] == before[k]
}

/// Whether the record resolved at position `i` is what the store holds for
/// the identifier at that position.
pub open spec fn stored_at(s: ResolverView, w: World, i: int) -> bool {
    &&& w.store.contains_key(s.ids[i])
    &&& s.results[i] == stored_record(s.ids[i], w.store[s.ids[i]])
}

/// Whether the records resolved so far are what the store holds for their
/// identifiers.
pub open spec fn from_store(s: ResolverView, w: World) -> bool {
    forall|i: int| 0 <= i < s.results.len() ==> #[trigger] stored_at(s, w, i)
}

/// Whether the action is a reply with a list of records.
pub open spec fn resolved(a: ActionView) -> bool {
    a matches ActionView::Reply { response: Ok(_) }
}

/// The records of a reply; none where the action is no reply with a list.
pub open spec fn reply_list(a: ActionView) -> Seq<ReleaseView> {
    match a {
        ActionView::Reply { response: Ok(list) } => list,
        _ => Seq::empty(),
    }
}

/// What holds when a batch `ids` that started in world `w` has been served,
/// with reply `a2` and world `w2`: the resolver has replied; the store has
/// only grown; every call made meanwhile was for an identifier that the
/// store lacked at the start, and no identifier was called twice; and a
/// reply with a list answers the batch, in order, with the records that the
/// store now holds.
pub open spec fn served(ids: Seq<Seq<char>>, w: World, a2: ActionView, w2: World) -> bool {
    &&& a2 is Reply
    &&& extends(w.store, w2.store)
    &&& w.calls.len() <= w2.calls.len()
    &&& w2.calls.take(w.calls.len() as int) == w.calls
    &&& forall|j: int|
        w.calls.len() <= j < w2.calls.len() ==> !w.store.contains_key(#[trigger] w2.calls[j])
    &&& forall|j: int, k: int|
        w.calls.len() <= j < k < w2.calls.len() ==> #[trigger] w2.calls[j] != #[trigger] w2.calls[k]
    &&& resolved(a2) ==> {
        &&& answers(ids, reply_list(a2))
        &&& forall|i: int|
            0 <= i < ids.len() ==> w2.store.contains_key(#[trigger] ids[i]) && reply_list(a2)[i]
                == stored_record(ids[i], w2.store[ids[i]])
    }
}

/// Whether the resolver, after one identifier more, stands where the batch
/// goes on or ends: with the next lookup pending, or replying with the full
/// list.
pub open spec fn moved_on(
    s: ResolverView,
    record: ReleaseView,
    s1: ResolverView,
    a1: ActionView,
) -> bool {
    if s.results.len() + 1 < s.ids.len() {
        &&& s1.stage == Stage::Looking
        &&& s1.ids == s.ids
        &&& s1.results == s.results.push(record)
        &&& a1 == ActionView::Lookup { id: current_id(s1) }
        &&& well_formed(s1)
    } else {
        &&& s1.stage == Stage::Replying
        &&& a1 == ActionView::Reply { response: Ok(s.results.push(record)) }
    }
}

/// The store holds the identifier: the record it gives back is appended, and
/// the batch goes on or ends.
proof fn lemma_hit(s: ResolverView, fields: (bool, Seq<char>))
    requires
        well_formed(s),
        s.stage == Stage::Looking,
    ensures
        ({
            let (s1, a1) = transition(
                s,
                EventView::Found { has_front: fields.0, urls: fields.1 },
            );
            moved_on(s, stored_record(current_id(s), fields), s1, a1)
        }),
{
}

/// The store lacks the identifier and the service answers: the resolver
/// calls for the identifier, hands the store the record read from the
/// answer, sleeps, and the batch goes on or ends.
proof fn lemma_miss(s: ResolverView, now: u64, fields: (bool, Seq<char>))
    requires
        well_formed(s),
        s.stage == Stage::Looking,
    ensures
        ({
            let record = stored_record(current_id(s), fields);
            let (s1, a1) = transition(s, EventView::Missing { now });
            let (s2, a2) = transition(
                s1,
                EventView::Fetched { has_front: fields.0, urls: fields.1 },
            );
            let (s3, a3) = transition(s2, EventView::Inserted);
            let (s4, a4) = transition(s3, EventView::Woke);
            &&& a1 == ActionView::Fetch { id: current_id(s) }
            &&& a2 == ActionView::Insert { record }
            &&& a3 == ActionView::Sleep { until: window_end(now) as u64 }
            &&& moved_on(s, record, s4, a4)
        }),
{
}

/// A call that fails ends the batch with an error.
proof fn lemma_miss_fails(s: ResolverView, now: u64, decode: bool, message: Seq<char>)
    requires
        well_formed(s),
        s.stage == Stage::Looking,
    ensures
        ({
            let (s1, a1) = transition(s, EventView::Missing { now });
            let (_s2, a2) = transition(s1, answer_event(Answer::Failure { decode, message }));
            &&& a1 == ActionView::Fetch { id: current_id(s) }
            &&& a2 == ActionView::Reply { response: Err(message) }
        }),
{
}

/// Appending what the store holds for the current identifier keeps the
/// results in step with the store, also after the store has grown.
proof fn lemma_from_store_grows(s: ResolverView, w: World, s1: ResolverView, w1: World)
    requires
        well_formed(s),
        from_store(s, w),
        s.results.len() < s.ids.len(),
        extends(w.store, w1.store),
        w1.store.contains_key(current_id(s)),
        s1.ids == s.ids,
        s1.results == s.results.push(stored_record(current_id(s), w1.store[current_id(s)])),
    ensures
        from_store(s1, w1),
{
    assert forall|i: int| 0 <= i < s1.results.len() implies #[trigger] stored_at(s1, w1, i) by {
        if i < s.results.len() {
            assert(stored_at(s, w, i));
            assert(s1.results[i] == s.results[i]);
        }
    }
}

/// What a batch that ends after the current identifier has established.
proof fn lemma_last_served(s: ResolverView, w: World, w1: World, calls_added: bool)
    requires
        well_formed(s),
        from_store(s, w),
        s.results.len() + 1 == s.ids.len(),
        extends(w.store, w1.store),
        w1.store.contains_key(current_id(s)),
        if calls_added {
            !w.store.contains_key(current_id(s)) && w1.calls == w.calls.push(current_id(s))
        } else {
            w1.calls == w.calls
        },
    ensures
        served(
            s.ids,
            w,
            ActionView::Reply {
                response: Ok(
                    s.results.push(stored_record(current_id(s), w1.store[current_id(s)])),
                ),
            },
            w1,
        ),
{
    let list = s.results.push(stored_record(current_id(s), w1.store[current_id(s)]));
    assert(w1.calls.take(w.calls.len() as int) =~= w.calls);
    assert forall|i: int| 0 <= i < s.ids.len() implies (#[trigger] list[i]).id == s.ids[i] by {
        if i < s.results.len() {
            assert(list[i] == s.results[i]);
        }
    }
    assert forall|i: int| 0 <= i < s.ids.len() implies w1.store.contains_key(#[trigger] s.ids[i])
        && list[i] == stored_record(s.ids[i], w1.store[s.ids[i]]) by {
        if i < s.results.len() {
            assert(list[i] == s.results[i]);
            assert(stored_at(s, w, i));
        }
    }
}

/// What the rest of a batch establishes carries over the identifier before
/// it.
proof fn lemma_served_after(
    ids: Seq<Seq<char>>,
    w: World,
    w1: World,
    id: Seq<char>,
    a2: ActionView,
    w2: World,
    calls_added: bool,
)
    requires
        served(ids, w1, a2, w2),
        extends(w.store, w1.store),
        w1.store.contains_key(id),
        if calls_added {
            !w.store.contains_key(id) && w1.calls == w.calls.push(id)
        } else {
            w1.calls == w.calls
        },
    ensures
        served(ids, w, a2, w2),
{
    assert(w2.calls.take(w.calls.len() as int) =~= w.calls) by {
        assert forall|j: int| 0 <= j < w.calls.len() implies w2.calls[j] == w.calls[j] by {
            assert(w2.calls.take(w1.calls.len() as int)[j] == w2.calls[j]);
        }
    }
    if calls_added {
        assert(w2.calls[w.calls.len() as int] == id) by {
            assert(w2.calls.take(w1.calls.len() as int)[w.calls.len() as int]
                == w2.calls[w.calls.len() as int]);
        }
    }
    assert forall|j: int| w.calls.len() <= j < w2.calls.len() implies !w.store.contains_key(
        #[trigger] w2.calls[j],
    ) by {
        if j >= w1.calls.len() {
            assert(!w1.store.contains_key(w2.calls[j]));
        }
    }
    assert forall|j: int, k: int| w.calls.len() <= j < k < w2.calls.len() implies #[trigger] w2.calls[j]
        != #[trigger] w2.calls[k] by {
        if j < w1.calls.len() {
            assert(!w1.store.contains_key(w2.calls[k]));
        }
    }
}

/// A batch in flight, with a lookup pending, is served to its end.
proof fn lemma_drive_serves(
    s: ResolverView,
    w: World,
    service: spec_fn(Seq<char>) -> Answer,
    clock: spec_fn(nat) -> u64,
    steps: nat,
)
    requires
        well_formed(s),
        from_store(s, w),
        s.stage == Stage::Looking,
        steps >= 4 * (s.ids.len() - s.results.len()),
    ensures
        ({
            let (_s2, a2, w2) = drive(
                s,
                ActionView::Lookup { id: current_id(s) },
                w,
                service,
                clock,
                steps,
            );
            served(s.ids, w, a2, w2)
        }),
    decreases s.ids.len() - s.results.len(),
{
    reveal_with_fuel(drive, 5);
    let id = current_id(s);
    let a = ActionView::Lookup { id };
    let out = drive(s, a, w, service, clock, steps);
    if w.store.contains_key(id) {
        let (s1, a1) = transition(
            s,
            EventView::Found { has_front: w.store[id].0, urls: w.store[id].1 },
        );
        lemma_hit(s, w.store[id]);
        let w1 = World { clock: later(w.clock, clock(steps)), ..w };
        assert(out == drive(s1, a1, w1, service, clock, (steps - 1) as nat));
        if s.results.len() + 1 < s.ids.len() {
            lemma_from_store_grows(s, w, s1, w1);
            lemma_drive_serves(s1, w1, service, clock, (steps - 1) as nat);
        } else {
            assert(out == (s1, a1, w1));
            lemma_last_served(s, w, w1, false);
        }
    } else {
        let now = later(w.clock, clock(steps));
        let (s1, a1) = transition(s, EventView::Missing { now });
        let w1 = World {
            calls: w.calls.push(id),
            starts: w.starts.push(now),
            clock: now,
            ..w
        };
        match service(id) {
            Answer::Release { has_front, urls } => {
                lemma_miss(s, now, (has_front, urls));
                let (s2, a2) = transition(s1, EventView::Fetched { has_front, urls });
                let w2 = World {
                    store: w.store.insert(id, (has_front, urls)),
                    clock: later(now, window_end(now) as u64),
                    ..w1
                };
                let (s3, a3) = transition(s2, EventView::Inserted);
                let (s4, a4) = transition(s3, EventView::Woke);
                assert(out == drive(s4, a4, w2, service, clock, (steps - 4) as nat));
                if s.results.len() + 1 < s.ids.len() {
                    lemma_from_store_grows(s, w, s4, w2);
                    lemma_drive_serves(s4, w2, service, clock, (steps - 4) as nat);
                    lemma_served_after(s.ids, w, w2, id, out.1, out.2, true);
                } else {
                    assert(out == (s4, a4, w2));
                    lemma_last_served(s, w, w2, true);
                }
            },
            Answer::Failure { decode, message } => {
                lemma_miss_fails(s, now, decode, message);
                let (s2, a2) = transition(s1, answer_event(service(id)));
                assert(out == (s2, a2, w1));
                assert(w1.calls.take(w.calls.len() as int) =~= w.calls);
            },
        }
    }
}

/// Order preservation and all-or-nothing, for a whole batch: an idle
/// resolver that takes a batch and is given enough steps replies; a reply
/// with a list has one record for each identifier, in the order of the
/// batch; and any other reply is an error without records.
pub proof fn lemma_batch_is_served(
    deadline: u64,
    ids: Seq<Seq<char>>,
    w: World,
    service: spec_fn(Seq<char>) -> Answer,
    clock: spec_fn(nat) -> u64,
    steps: nat,
)
    requires
        steps >= 4 * ids.len(),
    ensures
        ({
            let (_s2, a2, w2) = serve(deadline, ids, w, service, clock, steps);
            served(ids, w, a2, w2)
        }),
{
    reveal_with_fuel(drive, 2);
    let (s, a) = transition(idle_view(deadline), EventView::Batch { ids });
    if ids.len() > 0 {
        lemma_drive_serves(s, w, service, clock, steps);
    } else {
        assert(w.calls.take(w.calls.len() as int) =~= w.calls);
    }
}

/// Cache idempotence, for two batches served one after the other against
/// the same store: once the first batch has resolved, the second makes no
/// call for any identifier of the first, so no identifier is called more
/// than once over both batches; and where the second resolves too, an
/// identifier that both hold gets equal records.
pub proof fn lemma_second_batch_from_cache(
    ids1: Seq<Seq<char>>,
    ids2: Seq<Seq<char>>,
    w: World,
    service: spec_fn(Seq<char>) -> Answer,
    clock1: spec_fn(nat) -> u64,
    clock2: spec_fn(nat) -> u64,
    steps1: nat,
    steps2: nat,
    deadline1: u64,
    deadline2: u64,
)
    requires
        steps1 >= 4 * ids1.len(),
        steps2 >= 4 * ids2.len(),
        resolved(serve(deadline1, ids1, w, service, clock1, steps1).1),
    ensures
        ({
            let (_s1, a1, w1) = serve(deadline1, ids1, w, service, clock1, steps1);
            let (_s2, a2, w2) = serve(deadline2, ids2, w1, service, clock2, steps2);
            &&& forall|i: int, j: int|
                0 <= i < ids1.len() && w1.calls.len() <= j < w2.calls.len() ==> #[trigger] ids1[i]
                    != #[trigger] w2.calls[j]
            &&& forall|j: int, k: int|
                w.calls.len() <= j < k < w2.calls.len() ==> #[trigger] w2.calls[j]
                    != #[trigger] w2.calls[k]
            &&& resolved(a2) ==> forall|i: int, j: int|
                0 <= i < ids1.len() && 0 <= j < ids2.len() && #[trigger] ids1[i]
                    == #[trigger] ids2[j] ==> reply_list(a1)[i] == reply_list(a2)[j]
        }),
{
    lemma_batch_is_served(deadline1, ids1, w, service, clock1, steps1);
    let (_s1, a1, w1) = serve(deadline1, ids1, w, service, clock1, steps1);
    lemma_batch_is_served(deadline2, ids2, w1, service, clock2, steps2);
    let (_s2, a2, w2) = serve(deadline2, ids2, w1, service, clock2, steps2);
    assert forall|j: int, k: int| w.calls.len() <= j < k < w2.calls.len() implies #[trigger] w2.calls[j]
        != #[trigger] w2.calls[k] by {
        if j < w1.calls.len() {
            assert(w2.calls.take(w1.calls.len() as int)[j] == w2.calls[j]);
            if k < w1.calls.len() {
                assert(w2.calls.take(w1.calls.len() as int)[k] == w2.calls[k]);
            } else {
                // The first batch stored what it called for, or did not resolve.
                lemma_called_is_stored(deadline1, ids1, w, service, clock1, steps1, j);
            }
        }
    }
}

/// In a batch that resolves, every identifier called for is in the store
/// afterwards.
proof fn lemma_called_is_stored(
    deadline: u64,
    ids: Seq<Seq<char>>,
    w: World,
    service: spec_fn(Seq<char>) -> Answer,
    clock: spec_fn(nat) -> u64,
    steps: nat,
    j: int,
)
    requires
        steps >= 4 * ids.len(),
        resolved(serve(deadline, ids, w, service, clock, steps).1),
        w.calls.len() <= j < serve(deadline, ids, w, service, clock, steps).2.calls.len(),
    ensures
        ({
            let w2 = serve(deadline, ids, w, service, clock, steps).2;
            w2.store.contains_key(w2.calls[j])
        }),
{
    let (s, a) = transition(idle_view(deadline), EventView::Batch { ids });
    reveal_with_fuel(drive, 2);
    if ids.len() > 0 {
        lemma_drive_stores_calls(s, w, service, clock, steps, j);
    }
}

/// In the rest of a batch that resolves, every identifier called for is in
/// the store afterwards.
proof fn lemma_drive_stores_calls(
    s: ResolverView,
    w: World,
    service: spec_fn(Seq<char>) -> Answer,
    clock: spec_fn(nat) -> u64,
    steps: nat,
    j: int,
)
    requires
        well_formed(s),
        from_store(s, w),
        s.stage == Stage::Looking,
        steps >= 4 * (s.ids.len() - s.results.len()),
        resolved(
            drive(s, ActionView::Lookup { id: current_id(s) }, w, service, clock, steps).1,
        ),
        w.calls.len() <= j < drive(
            s,
            ActionView::Lookup { id: current_id(s) },
            w,
            service,
            clock,
            steps,
        ).2.calls.len(),
    ensures
        ({
            let w2 = drive(
                s,
                ActionView::Lookup { id: current_id(s) },
                w,
                service,
                clock,
                steps,
            ).2;
            w2.store.contains_key(w2.calls[j])
        }),
    decreases s.ids.len() - s.results.len(),
{
    reveal_with_fuel(drive, 5);
    let id = current_id(s);
    let a = ActionView::Lookup { id };
    let out = drive(s, a, w, service, clock, steps);
    if w.store.contains_key(id) {
        let (s1, a1) = transition(
            s,
            EventView::Found { has_front: w.store[id].0, urls: w.store[id].1 },
        );
        lemma_hit(s, w.store[id]);
        let w1 = World { clock: later(w.clock, clock(steps)), ..w };
        assert(out == drive(s1, a1, w1, service, clock, (steps - 1) as nat));
        if s.results.len() + 1 < s.ids.len() {
            lemma_from_store_grows(s, w, s1, w1);
            lemma_drive_stores_calls(s1, w1, service, clock, (steps - 1) as nat, j);
        } else {
            assert(out == (s1, a1, w1));
        }
    } else {
        let now = later(w.clock, clock(steps));
        let (s1, a1) = transition(s, EventView::Missing { now });
        let w1 = World {
            calls: w.calls.push(id),
            starts: w.starts.push(now),
            clock: now,
            ..w
        };
        match service(id) {
            Answer::Release { has_front, urls } => {
                lemma_miss(s, now, (has_front, urls));
                let (s2, a2) = transition(s1, EventView::Fetched { has_front, urls });
                let w2 = World {
                    store: w.store.insert(id, (has_front, urls)),
                    clock: later(now, window_end(now) as u64),
                    ..w1
                };
                let (s3, a3) = transition(s2, EventView::Inserted);
                let (s4, a4) = transition(s3, EventView::Woke);
                assert(out == drive(s4, a4, w2, service, clock, (steps - 4) as nat));
                if s.results.len() + 1 < s.ids.len() {
                    lemma_from_store_grows(s, w, s4, w2);
                    lemma_drive_serves(s4, w2, service, clock, (steps - 4) as nat);
                    if j >= w2.calls.len() {
                        lemma_drive_stores_calls(s4, w2, service, clock, (steps - 4) as nat, j);
                    } else {
                        assert(out.2.calls.take(w2.calls.len() as int)[j] == out.2.calls[j]);
                        assert(w2.store.contains_key(id));
                    }
                } else {
                    assert(out == (s4, a4, w2));
                }
            },
            Answer::Failure { decode, message } => {
                lemma_miss_fails(s, now, decode, message);
                let (s2, a2) = transition(s1, answer_event(service(id)));
                assert(out == (s2, a2, w1));
            },
        }
    }
}

/// Whether the calls made between world `w` and world `w2` keep the rate
/// limit: each began no earlier than `w`'s present instant, and each but the
/// first began at least one window after the start of the call before it.
pub open spec fn spaced(w: World, w2: World) -> bool {
    &&& w2.starts.len() == w2.calls.len()
    &&& w.starts.len() <= w2.starts.len()
    &&& w2.starts.take(w.starts.len() as int) == w.starts
    &&& w.clock <= w2.clock
    &&& forall|j: int| w.starts.len() <= j < w2.starts.len() ==> w.clock <= #[trigger] w2.starts[j]
    &&& forall|j: int|
        w.starts.len() <= j && j + 1 < w2.starts.len() ==> (#[trigger] w2.starts[j]) + WINDOW_MS
            <= w2.starts[j + 1]
}

/// The calls of what follows keep the rate limit also counted from a world
/// `w` before: one that differs from `w1` by an earlier clock, or by the
/// call that began at `w`'s present instant, one window before `w1`'s.
proof fn lemma_spaced_after(w: World, w1: World, w2: World, called: bool)
    requires
        spaced(w1, w2),
        w.starts.len() == w.calls.len(),
        if called {
            w1.starts == w.starts.push(w.clock) && w.clock + WINDOW_MS <= w1.clock
        } else {
            w1.starts == w.starts && w.clock <= w1.clock
        },
    ensures
        spaced(w, w2),
{
    assert(w2.starts.take(w.starts.len() as int) =~= w.starts) by {
        assert forall|j: int| 0 <= j < w.starts.len() implies w2.starts[j] == w.starts[j] by {
            assert(w2.starts.take(w1.starts.len() as int)[j] == w2.starts[j]);
        }
    }
    if called {
        assert(w2.starts[w.starts.len() as int] == w.clock) by {
            assert(w2.starts.take(w1.starts.len() as int)[w.starts.len() as int]
                == w2.starts[w.starts.len() as int]);
        }
    }
}

/// The calls of a batch in flight keep the rate limit, in a world whose
/// clock stays below `bound` unless the resolver's sleeps move it further.
proof fn lemma_drive_spaces_calls(
    s: ResolverView,
    w: World,
    service: spec_fn(Seq<char>) -> Answer,
    clock: spec_fn(nat) -> u64,
    steps: nat,
    bound: int,
)
    requires
        well_formed(s),
        s.stage == Stage::Looking,
        steps >= 4 * (s.ids.len() - s.results.len()),
        w.starts.len() == w.calls.len(),
        w.clock <= bound,
        forall|n: nat| (#[trigger] clock(n)) <= bound,
        bound + WINDOW_MS * (s.ids.len() - s.results.len()) <= u64::MAX,
    ensures
        spaced(
            w,
            drive(s, ActionView::Lookup { id: current_id(s) }, w, service, clock, steps).2,
        ),
    decreases s.ids.len() - s.results.len(),
{
    reveal_with_fuel(drive, 5);
    let id = current_id(s);
    let a = ActionView::Lookup { id };
    let out = drive(s, a, w, service, clock, steps);
    let now = later(w.clock, clock(steps));
    if w.store.contains_key(id) {
        let (s1, a1) = transition(
            s,
            EventView::Found { has_front: w.store[id].0, urls: w.store[id].1 },
        );
        lemma_hit(s, w.store[id]);
        let w1 = World { clock: now, ..w };
        assert(out == drive(s1, a1, w1, service, clock, (steps - 1) as nat));
        if s.results.len() + 1 < s.ids.len() {
            lemma_drive_spaces_calls(s1, w1, service, clock, (steps - 1) as nat, bound);
            lemma_spaced_after(w, w1, out.2, false);
        } else {
            assert(out == (s1, a1, w1));
            assert(w1.starts.take(w.starts.len() as int) =~= w.starts);
        }
    } else {
        let (s1, a1) = transition(s, EventView::Missing { now });
        let w1 = World {
            calls: w.calls.push(id),
            starts: w.starts.push(now),
            clock: now,
            ..w
        };
        let w0 = World { clock: now, ..w };
        match service(id) {
            Answer::Release { has_front, urls } => {
                lemma_miss(s, now, (has_front, urls));
                let (s2, a2) = transition(s1, EventView::Fetched { has_front, urls });
                let w2 = World {
                    store: w.store.insert(id, (has_front, urls)),
                    clock: later(now, window_end(now) as u64),
                    ..w1
                };
                let (s3, a3) = transition(s2, EventView::Inserted);
                let (s4, a4) = transition(s3, EventView::Woke);
                assert(out == drive(s4, a4, w2, service, clock, (steps - 4) as nat));
                assert(w2.clock == now + WINDOW_MS);
                if s.results.len() + 1 < s.ids.len() {
                    lemma_drive_spaces_calls(
                        s4,
                        w2,
                        service,
                        clock,
                        (steps - 4) as nat,
                        bound + WINDOW_MS,
                    );
                    lemma_spaced_after(w0, w2, out.2, true);
                    lemma_spaced_after(w, w0, out.2, false);
                } else {
                    assert(out == (s4, a4, w2));
                    assert(w2.starts.take(w.starts.len() as int) =~= w.starts);
                }
            },
            Answer::Failure { decode, message } => {
                lemma_miss_fails(s, now, decode, message);
                let (s2, a2) = transition(s1, answer_event(service(id)));
                assert(out == (s2, a2, w1));
                assert(w1.starts.take(w.starts.len() as int) =~= w.starts);
            },
        }
    }
}

/// Rate-limit floor, within a batch: in a world that sleeps as long as it
/// is asked to, each call of the batch but the first begins at least one
/// window after the start of the call before it, however many identifiers
/// were resolved from the store between the two.
pub proof fn lemma_calls_are_spaced(
    deadline: u64,
    ids: Seq<Seq<char>>,
    w: World,
    service: spec_fn(Seq<char>) -> Answer,
    clock: spec_fn(nat) -> u64,
    steps: nat,
    bound: int,
)
    requires
        steps >= 4 * ids.len(),
        w.starts.len() == w.calls.len(),
        w.clock <= bound,
        forall|n: nat| (#[trigger] clock(n)) <= bound,
        bound + WINDOW_MS * ids.len() <= u64::MAX,
    ensures
        spaced(w, serve(deadline, ids, w, service, clock, steps).2),
{
    reveal_with_fuel(drive, 2);
    let (s, a) = transition(idle_view(deadline), EventView::Batch { ids });
    if ids.len() > 0 {
        lemma_drive_spaces_calls(s, w, service, clock, steps, bound);
    } else {
        assert(w.starts.take(w.starts.len() as int) =~= w.starts);
    }
}

/// What follows a reply: the world hands it to the originator and, where
/// the resolver then asks for a sleep, sleeps as long as asked.
pub open spec fn settle(s: ResolverView, a: ActionView, w: World) -> (
    ResolverView,
    ActionView,
    World,
) {
    let (s1, a1) = transition(s, EventView::Replied);
    match a1 {
        ActionView::Sleep { until } => {
            let (s2, a2) = transition(s1, EventView::Woke);
            (s2, a2, World { clock: later(w.clock, until), ..w })
        },
        _ => (s1, a1, w),
    }
}

/// Whether the service never fails in transport.
pub open spec fn gets_through(service: spec_fn(Seq<char>) -> Answer) -> bool {
    forall|id: Seq<char>| !(#[trigger] service(id) matches Answer::Failure { decode: false, .. })
}

/// Whether, after the batch that began in world `w` and ended with `out`,
/// the resolver is idle again in a world `w3` that differs from the batch's
/// last by its clock alone, and one window or more has passed since the
/// start of each call of the batch.
pub open spec fn rested(w: World, out: (ResolverView, ActionView, World), bound: int) -> bool {
    let (s3, a3, w3) = settle(out.0, out.1, out.2);
    &&& a3 == ActionView::AwaitBatch
    &&& s3 == idle_view(s3.deadline)
    &&& w3.store == out.2.store
    &&& w3.calls == out.2.calls
    &&& w3.starts == out.2.starts
    &&& out.2.clock <= w3.clock <= bound
    &&& forall|j: int|
        w.starts.len() <= j < w3.starts.len() ==> (#[trigger] w3.starts[j]) + WINDOW_MS <= w3.clock
}

/// The rest of a batch, served by a world whose service never fails in
/// transport, leaves the resolver rested.
proof fn lemma_drive_rests(
    s: ResolverView,
    w: World,
    service: spec_fn(Seq<char>) -> Answer,
    clock: spec_fn(nat) -> u64,
    steps: nat,
    bound: int,
)
    requires
        well_formed(s),
        s.stage == Stage::Looking,
        steps >= 4 * (s.ids.len() - s.results.len()),
        w.starts.len() == w.calls.len(),
        w.clock <= bound,
        forall|n: nat| (#[trigger] clock(n)) <= bound,
        bound + WINDOW_MS * (s.ids.len() - s.results.len()) <= u64::MAX,
        gets_through(service),
    ensures
        rested(
            w,
            drive(s, ActionView::Lookup { id: current_id(s) }, w, service, clock, steps),
            bound + WINDOW_MS * (s.ids.len() - s.results.len()),
        ),
    decreases s.ids.len() - s.results.len(),
{
    reveal_with_fuel(drive, 5);
    let id = current_id(s);
    let a = ActionView::Lookup { id };
    let out = drive(s, a, w, service, clock, steps);
    let now = later(w.clock, clock(steps));
    if w.store.contains_key(id) {
        let (s1, a1) = transition(
            s,
            EventView::Found { has_front: w.store[id].0, urls: w.store[id].1 },
        );
        lemma_hit(s, w.store[id]);
        let w1 = World { clock: now, ..w };
        assert(out == drive(s1, a1, w1, service, clock, (steps - 1) as nat));
        if s.results.len() + 1 < s.ids.len() {
            lemma_drive_rests(s1, w1, service, clock, (steps - 1) as nat, bound);
        } else {
            assert(out == (s1, a1, w1));
        }
    } else {
        let (s1, a1) = transition(s, EventView::Missing { now });
        let w1 = World {
            calls: w.calls.push(id),
            starts: w.starts.push(now),
            clock: now,
            ..w
        };
        match service(id) {
            Answer::Release { has_front, urls } => {
                lemma_miss(s, now, (has_front, urls));
                let (s2, a2) = transition(s1, EventView::Fetched { has_front, urls });
                let w2 = World {
                    store: w.store.insert(id, (has_front, urls)),
                    clock: later(now, window_end(now) as u64),
                    ..w1
                };
                let (s3, a3) = transition(s2, EventView::Inserted);
                let (s4, a4) = transition(s3, EventView::Woke);
                assert(out == drive(s4, a4, w2, service, clock, (steps - 4) as nat));
                assert(w2.clock == now + WINDOW_MS);
                if s.results.len() + 1 < s.ids.len() {
                    lemma_drive_rests(
                        s4,
                        w2,
                        service,
                        clock,
                        (steps - 4) as nat,
                        bound + WINDOW_MS,
                    );
                    lemma_drive_spaces_calls(
                        s4,
                        w2,
                        service,
                        clock,
                        (steps - 4) as nat,
                        bound + WINDOW_MS,
                    );
                    assert(out.2.starts[w.starts.len() as int] == now) by {
                        assert(out.2.starts.take(w2.starts.len() as int)[w.starts.len() as int]
                            == out.2.starts[w.starts.len() as int]);
                    }
                } else {
                    assert(out == (s4, a4, w2));
                }
            },
            Answer::Failure { decode, message } => {
                lemma_miss_fails(s, now, decode, message);
                let (s2, a2) = transition(s1, answer_event(service(id)));
                assert(out == (s2, a2, w1));
                assert(decode);
            },
        }
    }
}

/// Rate-limit floor, over two batches served one after the other by a world
/// whose service never fails in transport while the first is served: each
/// call of the two batches but the first begins at least one window after
/// the start of the call before it, also where the two calls belong to
/// different batches.
pub proof fn lemma_batches_are_spaced(
    ids1: Seq<Seq<char>>,
    ids2: Seq<Seq<char>>,
    w: World,
    service1: spec_fn(Seq<char>) -> Answer,
    service2: spec_fn(Seq<char>) -> Answer,
    clock1: spec_fn(nat) -> u64,
    clock2: spec_fn(nat) -> u64,
    steps1: nat,
    steps2: nat,
    deadline: u64,
    bound: int,
)
    requires
        steps1 >= 4 * ids1.len(),
        steps2 >= 4 * ids2.len(),
        w.starts.len() == w.calls.len(),
        w.clock <= bound,
        forall|n: nat| (#[trigger] clock1(n)) <= bound,
        forall|n: nat| (#[trigger] clock2(n)) <= bound,
        bound + WINDOW_MS * (ids1.len() + ids2.len()) <= u64::MAX,
        gets_through(service1),
    ensures
        ({
            let (s1, a1, w1) = serve(deadline, ids1, w, service1, clock1, steps1);
            let (s3, a3, w3) = settle(s1, a1, w1);
            let (_s4, _a4, w4) = serve(s3.deadline, ids2, w3, service2, clock2, steps2);
            &&& a3 == ActionView::AwaitBatch
            &&& s3 == idle_view(s3.deadline)
            &&& forall|j: int|
                w.starts.len() <= j && j + 1 < w4.starts.len() ==> (#[trigger] w4.starts[j])
                    + WINDOW_MS <= w4.starts[j + 1]
        }),
{
    reveal_with_fuel(drive, 2);
    let (s0, a0) = transition(idle_view(deadline), EventView::Batch { ids: ids1 });
    let (s1, a1, w1) = serve(deadline, ids1, w, service1, clock1, steps1);
    let bound1 = bound + WINDOW_MS * ids1.len();
    lemma_calls_are_spaced(deadline, ids1, w, service1, clock1, steps1, bound);
    if ids1.len() > 0 {
        lemma_drive_rests(s0, w, service1, clock1, steps1, bound);
    }
    assert(rested(w, (s1, a1, w1), bound1));
    let (s3, a3, w3) = settle(s1, a1, w1);
    lemma_calls_are_spaced(s3.deadline, ids2, w3, service2, clock2, steps2, bound1);
    let w4 = serve(s3.deadline, ids2, w3, service2, clock2, steps2).2;
    assert forall|j: int| w.starts.len() <= j && j + 1 < w4.starts.len() implies (
    #[trigger] w4.starts[j]) + WINDOW_MS <= w4.starts[j + 1] by {
        if j < w3.starts.len() {
            assert(w4.starts.take(w3.starts.len() as int)[j] == w4.starts[j]);
            if j + 1 < w3.starts.len() {
                assert(w4.starts.take(w3.starts.len() as int)[j + 1] == w4.starts[j + 1]);
                assert(w1.starts[j] + WINDOW_MS <= w1.starts[j + 1]);
            } else {
                assert(w3.starts[j] + WINDOW_MS <= w3.clock);
                assert(w3.clock <= w4.starts[j + 1]);
            }
        }
    }
}

} // verus!
