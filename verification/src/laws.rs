//! What holds of every run of the resolver, proved from its transition
//! function.

use crate::musicbrainz::ReleaseView;
use crate::resolver::{
    abandon, current_id, transition, well_formed, window_end, ActionView, EventView,
    ResolverView, Stage,
};
use vstd::prelude::*;

verus! {

/// The batch that a step works on: the one that the event brings, or the one
/// in flight.
pub open spec fn batch_of(s: ResolverView, e: EventView) -> Seq<Seq<char>> {
    match (s.stage, e) {
        (Stage::Idle, EventView::Batch { ids }) => ids,
        _ => s.ids,
    }
}

/// Whether `list` answers `ids`: one record for each identifier, in order.
pub open spec fn answers(ids: Seq<Seq<char>>, list: Seq<ReleaseView>) -> bool {
    &&& list.len() == ids.len()
    &&& forall|i: int| 0 <= i < ids.len() ==> (#[trigger] list[i]).id == ids[i]
}

/// Whether the event reports a failure of the action pending in `stage`.
pub open spec fn is_failure(stage: Stage, e: EventView) -> bool {
    match (stage, e) {
        (Stage::Looking, EventView::LookupFailed { .. }) => true,
        (Stage::Fetching, EventView::TransportFailed { .. }) => true,
        (Stage::Fetching, EventView::DecodeFailed { .. }) => true,
        (Stage::Inserting, EventView::InsertFailed { .. }) => true,
        _ => false,
    }
}

/// The message of a failure event.
pub open spec fn failure_message(e: EventView) -> Seq<char> {
    match e {
        EventView::LookupFailed { message } => message,
        EventView::TransportFailed { message } => message,
        EventView::DecodeFailed { message } => message,
        EventView::InsertFailed { message } => message,
        _ => Seq::empty(),
    }
}

/// Order preservation: whenever the resolver replies with a list, the list
/// has one record for each identifier of the batch, and the record at each
/// position is that of the identifier at the same position.
pub proof fn lemma_reply_answers_batch(s: ResolverView, e: EventView)
    requires
        well_formed(s),
    ensures
        match transition(s, e).1 {
            ActionView::Reply { response: Ok(list) } => answers(batch_of(s, e), list),
            _ => true,
        },
{
}

/// All or nothing: a failure while an identifier is being resolved makes the
/// resolver reply with the failure's message and with no record, however many
/// identifiers were resolved before, and nothing of the batch is kept.
pub proof fn lemma_failure_abandons_batch(s: ResolverView, e: EventView)
    requires
        well_formed(s),
        is_failure(s.stage, e),
    ensures
        transition(s, e).1 == (ActionView::Reply { response: Err(failure_message(e)) }),
        transition(s, e).0.stage == Stage::Replying,
        transition(s, e).0.ids.len() == 0,
        transition(s, e).0.results.len() == 0,
{
}

/// The metadata service is called only for the identifier being resolved,
/// and only after the store has reported that it does not hold it.
pub proof fn lemma_call_only_on_miss(s: ResolverView, e: EventView)
    requires
        well_formed(s),
        transition(s, e).1 is Fetch,
    ensures
        s.stage == Stage::Looking,
        e is Missing,
        transition(s, e).1 == (ActionView::Fetch { id: current_id(s) }),
{
}

/// Whether the event is an answer of the metadata service that got through:
/// a decoded answer or one that could not be decoded.
pub open spec fn got_through(e: EventView) -> bool {
    e is Fetched || e is DecodeFailed
}

/// Rate-limit floor, for a call that got through. The window begins at the
/// instant reported with the miss, just before the call. Whatever follows
/// the call (the record stored, the insert failed, the answer not decoded),
/// the resolver asks for a sleep until the end of that window before it asks
/// for anything that can lead to another call.
pub proof fn lemma_window_waited_out(
    s: ResolverView,
    now: u64,
    answer: EventView,
    insert_error: Seq<char>,
)
    requires
        well_formed(s),
        s.stage == Stage::Looking,
        window_end(now) <= u64::MAX,
        got_through(answer),
    ensures
        ({
            let until = window_end(now) as u64;
            let (fetching, _call) = transition(s, EventView::Missing { now });
            let (after, next) = transition(fetching, answer);
            match answer {
                EventView::Fetched { .. } => {
                    let (failed, reply) = transition(
                        after,
                        EventView::InsertFailed { message: insert_error },
                    );
                    &&& next is Insert
                    &&& transition(after, EventView::Inserted).1 == ActionView::Sleep { until }
                    &&& reply is Reply
                    &&& transition(failed, EventView::Replied).1 == ActionView::Sleep { until }
                },
                _ => {
                    &&& next is Reply
                    &&& transition(after, EventView::Replied).1 == ActionView::Sleep { until }
                },
            }
        }),
{
}

/// While a sleep is pending, the resolver acts on nothing but its end.
pub proof fn lemma_sleep_is_not_cut_short(s: ResolverView, e: EventView)
    requires
        s.stage == Stage::Pausing || s.stage == Stage::Cooling,
        !(e is Woke),
    ensures
        transition(s, e) == (s, ActionView::Unexpected),
{
}

/// A transport failure abandons the batch without a sleep: after the reply
/// the resolver is idle at once.
pub proof fn lemma_transport_failure_skips_wait(s: ResolverView, message: Seq<char>)
    requires
        well_formed(s),
        s.stage == Stage::Fetching,
    ensures
        transition(s, EventView::TransportFailed { message }) == abandon(
            message,
            false,
            s.deadline,
        ),
        transition(abandon(message, false, s.deadline).0, EventView::Replied).1
            == ActionView::AwaitBatch,
{
}

} // verus!
