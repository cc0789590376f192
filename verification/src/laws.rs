use vstd::prelude::*;

verus! {

use crate::plan::EntryView;
use crate::notification_bot::SubscriberView;
use crate::notification_bot::DispatchView;
use crate::notification_bot::new_entries;
use crate::notification_bot::tick_dispatches;

/// A plan wholly covered by the seen set yields nothing: no new entries and
/// no dispatches.
pub proof fn lemma_tick_on_covered(
    seen: Seq<EntryView>,
    fetched: Seq<EntryView>,
    subs: Seq<SubscriberView>,
)
    requires
        forall|i: int| 0 <= i < fetched.len() ==> seen.contains(#[trigger] fetched[i]),
    ensures
        new_entries(seen, fetched) == Seq::<EntryView>::empty(),
        tick_dispatches(seen, fetched, subs) == Seq::<DispatchView>::empty(),
    decreases fetched.len(),
{
    if fetched.len() > 0 {
        assert forall|i: int| 0 <= i < fetched.drop_last().len() implies seen.contains(
            #[trigger] fetched.drop_last()[i],
        ) by {
            assert(fetched.drop_last()[i] == fetched[i]);
        }
        lemma_tick_on_covered(seen, fetched.drop_last(), subs);
        assert(seen.contains(fetched[fetched.len() - 1]));
        assert(new_entries(seen, fetched) =~= Seq::<EntryView>::empty());
        assert(tick_dispatches(seen, fetched, subs) =~= Seq::<DispatchView>::empty());
    }
}

/// Every fetched entry missing from the seen set shows up among the new ones.
proof fn lemma_new_entries_complete(seen: Seq<EntryView>, fetched: Seq<EntryView>, i: int)
    requires
        0 <= i < fetched.len(),
        !seen.contains(fetched[i]),
    ensures
        new_entries(seen, fetched).contains(fetched[i]),
    decreases fetched.len(),
{
    let pre = new_entries(seen, fetched.drop_last());
    if i == fetched.len() - 1 {
        assert(new_entries(seen, fetched)[pre.len() as int] == fetched[i]);
    } else {
        assert(fetched.drop_last()[i] == fetched[i]);
        lemma_new_entries_complete(seen, fetched.drop_last(), i);
        let j = choose|j: int| 0 <= j < pre.len() && pre[j] == fetched[i];
        assert(new_entries(seen, fetched)[j] == fetched[i]);
    }
}

/// After a tick, the carried seen set covers the whole fetch.
pub proof fn lemma_seen_after_covers(seen: Seq<EntryView>, fetched: Seq<EntryView>)
    ensures
        forall|i: int|
            0 <= i < fetched.len() ==> (seen + new_entries(seen, fetched)).contains(
                #[trigger] fetched[i],
            ),
{
    let grown = seen + new_entries(seen, fetched);
    assert forall|i: int| 0 <= i < fetched.len() implies grown.contains(#[trigger] fetched[i]) by {
        if seen.contains(fetched[i]) {
            let j = choose|j: int| 0 <= j < seen.len() && seen[j] == fetched[i];
            assert(grown[j] == fetched[i]);
        } else {
            lemma_new_entries_complete(seen, fetched, i);
            let fresh = new_entries(seen, fetched);
            let j = choose|j: int| 0 <= j < fresh.len() && fresh[j] == fetched[i];
            assert(grown[seen.len() + j] == fetched[i]);
        }
    }
}

/// Law: re-fetching an unchanged day-plan is idempotent. Against the seen set
/// a tick leaves behind, the same fetch detects no new entry and owes no
/// dispatch.
pub proof fn lemma_refetch_idempotent(
    seen: Seq<EntryView>,
    fetched: Seq<EntryView>,
    subs: Seq<SubscriberView>,
)
    ensures
        new_entries(seen + new_entries(seen, fetched), fetched) == Seq::<EntryView>::empty(),
        tick_dispatches(seen + new_entries(seen, fetched), fetched, subs) == Seq::<
            DispatchView,
        >::empty(),
{
    lemma_seen_after_covers(seen, fetched);
    lemma_tick_on_covered(seen + new_entries(seen, fetched), fetched, subs);
}

/// Law: deduplication. Observing an entry already present in the day's
/// record set adds no detection and no dispatch, whatever else the fetch
/// holds.
pub proof fn lemma_dedup(
    seen: Seq<EntryView>,
    fetched: Seq<EntryView>,
    e: EntryView,
    subs: Seq<SubscriberView>,
)
    requires
        seen.contains(e),
    ensures
        new_entries(seen, fetched.push(e)) == new_entries(seen, fetched),
        tick_dispatches(seen, fetched.push(e), subs) == tick_dispatches(seen, fetched, subs),
{
    assert(fetched.push(e).drop_last() =~= fetched);
    assert(fetched.push(e).last() == e);
    assert(new_entries(seen, fetched.push(e)) =~= new_entries(seen, fetched));
    assert(tick_dispatches(seen, fetched.push(e), subs) =~= tick_dispatches(seen, fetched, subs));
}

} // verus!
