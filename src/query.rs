//! What a query selects from a product's event log, and how a page is cut
//! from the selection.
use vstd::prelude::*;
use crate::types::{EventFilter, EventPage, EventView};

verus! {

/// The event that `id` names in a log whose event `k` has id `k + 1`.
pub open spec fn event_at(evs: Seq<EventView>, id: u64) -> EventView {
    evs[id as int - 1]
}

/// The ids in `ids`, in order, whose events `keep` accepts.
pub open spec fn select(ids: Seq<u64>, evs: Seq<EventView>, keep: spec_fn(EventView) -> bool) -> Seq<u64>
    decreases ids.len(),
{
    if ids.len() == 0 {
        Seq::empty()
    } else {
        let rest = select(ids.drop_last(), evs, keep);
        if keep(event_at(evs, ids.last())) {
            rest.push(ids.last())
        } else {
            rest
        }
    }
}

/// Accepts the events of one type.
pub open spec fn of_type(t: Seq<char>) -> spec_fn(EventView) -> bool {
    |e: EventView| e.event_type == t
}

/// Accepts the events stamped within `[start, end]`.
pub open spec fn in_time_range(start: u64, end: u64) -> spec_fn(EventView) -> bool {
    |e: EventView| start <= e.timestamp && e.timestamp <= end
}

/// Accepts the events that meet every active criterion of `f`.
pub open spec fn matches_filter(f: EventFilter) -> spec_fn(EventView) -> bool {
    |e: EventView|
        (f.event_type@.len() == 0 || e.event_type == f.event_type@) && (f.start_time == 0
            || f.start_time <= e.timestamp) && (f.end_time == u64::MAX || e.timestamp
            <= f.end_time) && (f.location@.len() == 0 || e.location == f.location@)
}

/// Every id names an event of `evs`.
pub open spec fn ids_in_log(ids: Seq<u64>, n: nat) -> bool {
    forall|j: int| 0 <= j < ids.len() ==> 1 <= #[trigger] ids[j] <= n
}

/// The part of `s` that a page at `offset` of at most `limit` items shows.
pub open spec fn page_slice<A>(s: Seq<A>, offset: int, limit: int) -> Seq<A> {
    let n = s.len() as int;
    let start = if offset < n {
        offset
    } else {
        n
    };
    let end = if offset + limit < n {
        offset + limit
    } else {
        n
    };
    s.subrange(start, end)
}

/// `page` is the page at `offset` of at most `limit` events of `population`.
pub open spec fn is_page_of(page: EventPage, population: Seq<EventView>, offset: u64, limit: u64) -> bool {
    &&& page.events@.map_values(|e: crate::types::TrackingEvent| e@) == page_slice(
        population,
        offset as int,
        limit as int,
    )
    &&& page.total_count == population.len()
    &&& page.has_more == (offset + page.events@.len() < population.len())
}

/// The events that `ids` name, in order.
pub open spec fn events_of(ids: Seq<u64>, evs: Seq<EventView>) -> Seq<EventView> {
    ids.map_values(|id: u64| event_at(evs, id))
}

/// Selecting over a longer log gives the same ids, as long as every id names
/// an event of the shorter one.
pub proof fn lemma_select_stable(
    ids: Seq<u64>,
    evs: Seq<EventView>,
    evs2: Seq<EventView>,
    keep: spec_fn(EventView) -> bool,
)
    requires
        ids_in_log(ids, evs.len()),
        evs.len() <= evs2.len(),
        evs2.subrange(0, evs.len() as int) == evs,
    ensures
        select(ids, evs2, keep) == select(ids, evs, keep),
    decreases ids.len(),
{
    if ids.len() > 0 {
        let id = ids.last();
        assert(ids_in_log(ids.drop_last(), evs.len()) ) by {
            assert forall|j: int| 0 <= j < ids.drop_last().len() implies 1 <= #[trigger] ids.drop_last()[j] <= evs.len() by {
                assert(ids.drop_last()[j] == ids[j]);
            }
        }
        lemma_select_stable(ids.drop_last(), evs, evs2, keep);
        assert(1 <= ids[ids.len() - 1] <= evs.len());
        assert(evs2.subrange(0, evs.len() as int)[id as int - 1] == evs2[id as int - 1]);
    }
}

/// When `keep` accepts none of the events, nothing is selected.
pub proof fn lemma_select_none(ids: Seq<u64>, evs: Seq<EventView>, keep: spec_fn(EventView) -> bool)
    requires
        forall|j: int| 0 <= j < ids.len() ==> !keep(#[trigger] event_at(evs, ids[j])),
    ensures
        select(ids, evs, keep) == Seq::<u64>::empty(),
    decreases ids.len(),
{
    if ids.len() > 0 {
        assert forall|j: int| 0 <= j < ids.drop_last().len() implies !keep(
            #[trigger] event_at(evs, ids.drop_last()[j]),
        ) by {
            assert(ids.drop_last()[j] == ids[j]);
            assert(!keep(event_at(evs, ids[j])));
        }
        lemma_select_none(ids.drop_last(), evs, keep);
        assert(!keep(event_at(evs, ids[ids.len() - 1])));
    }
}

/// Selected ids come from `ids`.
pub proof fn lemma_select_within(ids: Seq<u64>, evs: Seq<EventView>, keep: spec_fn(EventView) -> bool, n: nat)
    requires
        ids_in_log(ids, n),
    ensures
        ids_in_log(select(ids, evs, keep), n),
    decreases ids.len(),
{
    if ids.len() > 0 {
        assert(ids_in_log(ids.drop_last(), n)) by {
            assert forall|j: int| 0 <= j < ids.drop_last().len() implies 1 <= #[trigger] ids.drop_last()[j] <= n by {
                assert(ids.drop_last()[j] == ids[j]);
            }
        }
        lemma_select_within(ids.drop_last(), evs, keep, n);
        assert(1 <= ids[ids.len() - 1] <= n);
    }
}

/// Pagination: a page at `offset` of at most `limit` items out of a population
/// of `N` holds `max(0, min(limit, N - offset))` items, says that more follow
/// exactly when `offset` plus its length is below `N`, and is empty with
/// nothing following once `offset` reaches `N`.
pub proof fn lemma_pagination(page: EventPage, population: Seq<EventView>, offset: u64, limit: u64)
    requires
        is_page_of(page, population, offset, limit),
    ensures
        page.events@.len() == vstd::math::max(
            0,
            vstd::math::min(limit as int, population.len() - offset),
        ),
        page.has_more == (offset + page.events@.len() < page.total_count),
        offset >= population.len() ==> page.events@.len() == 0 && !page.has_more,
{
    let n = population.len() as int;
    assert(page.events@.len() == page.events@.map_values(|e: crate::types::TrackingEvent| e@).len());
}

} // verus!
