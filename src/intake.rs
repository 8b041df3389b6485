use vstd::prelude::*;
use crate::store::{CounterStore, bumped, count_in};

verus! {

/// One decoded analytics event.
///
/// `timestamp` is carried along but takes no part in any decision.
pub struct AnalyticsEvent {
    pub event_type: String,
    pub room_id: String,
    pub timestamp: i64,
}

/// What the intake answers for one event.
///
/// `status` is the fixed acknowledgment; `room_count` is the room's new count
/// when the event was counted, and `None` when it was ignored.
pub struct Receipt {
    pub status: String,
    pub room_count: Option<u64>,
}

/// Whether events of this type are counted: only `"message"` ones are.
pub open spec fn is_message(event_type: Seq<char>) -> bool {
    event_type == "message"@
}

/// The counts after one event of type `event_type` for `room`.
pub open spec fn after_event(
    counts: Map<Seq<char>, nat>,
    event_type: Seq<char>,
    room: Seq<char>,
) -> Map<Seq<char>, nat> {
    if is_message(event_type) {
        bumped(counts, room)
    } else {
        counts
    }
}

/// The acknowledgment that every decoded event receives.
pub open spec fn recorded() -> Seq<char> {
    "recorded"@
}

/// Whether an event of type `event_type` is counted.
pub fn is_counted(event_type: &String) -> (r: bool)
    ensures
        r == is_message(event_type@),
{
    let tag = "message".to_owned();
    *event_type == tag
}

/// Takes one event: a `"message"` event adds one to its room's count, any
/// other type changes nothing, and either way the event is acknowledged.
pub fn ingest_event(store: &mut CounterStore, event: &AnalyticsEvent) -> (r: Receipt)
    requires
        old(store).wf(),
        is_message(event.event_type@) ==> count_in(old(store)@, event.room_id@) < u64::MAX,
    ensures
        final(store).wf(),
        final(store)@ == after_event(old(store)@, event.event_type@, event.room_id@),
        r.status@ == recorded(),
        !is_message(event.event_type@) ==> final(store)@ == old(store)@ && r.room_count.is_none(),
        is_message(event.event_type@) ==> r.room_count == Some(
            count_in(final(store)@, event.room_id@) as u64,
        ),
{
    let room_count = if is_counted(&event.event_type) {
        Some(store.increment(&event.room_id))
    } else {
        None
    };
    Receipt { status: "recorded".to_owned(), room_count }
}

/// Ingesting is not idempotent: the same `"message"` event taken twice
/// counts twice, so the second one raises the count again.
pub proof fn lemma_repeated_message_counts_again(counts: Map<Seq<char>, nat>, room: Seq<char>)
    ensures
        ({
            let once = after_event(counts, "message"@, room);
            let twice = after_event(once, "message"@, room);
            &&& count_in(once, room) == count_in(counts, room) + 1
            &&& count_in(twice, room) == count_in(once, room) + 1
        }),
{
}

} // verus!
