use vstd::prelude::*;

verus! {

use vstd::string::StrSliceExecFns;
use crate::plan::PlanEntry;
use crate::plan::EntryView;
use crate::plan::PlanDate;
use crate::plan::entry_views;
use crate::messenger::message_text;
use crate::messenger::build_text;
use crate::strutil::is_substring_of;
use crate::strutil::contains_substring;

/// A user subscribed to notifications: an account id, a display name, and one
/// string that may hold several class identifiers.
pub struct Subscriber {
    pub id: i64,
    pub name: String,
    pub classes: String,
}

/// The mathematical value of a `Subscriber`.
#[verifier::ext_equal]
pub struct SubscriberView {
    pub id: int,
    pub name: Seq<char>,
    pub classes: Seq<char>,
}

impl View for Subscriber {
    type V = SubscriberView;

    open spec fn view(&self) -> SubscriberView {
        SubscriberView { id: self.id as int, name: self.name@, classes: self.classes@ }
    }
}

/// The views of a sequence of subscribers, in order.
pub open spec fn subscriber_views(s: Seq<Subscriber>) -> Seq<SubscriberView> {
    s.map_values(|x: Subscriber| x@)
}

/// One message owed to one subscriber.
pub struct Dispatch {
    pub subscriber_id: i64,
    pub text: String,
}

/// The mathematical value of a `Dispatch`.
#[verifier::ext_equal]
pub struct DispatchView {
    pub subscriber_id: int,
    pub text: Seq<char>,
}

impl View for Dispatch {
    type V = DispatchView;

    open spec fn view(&self) -> DispatchView {
        DispatchView { subscriber_id: self.subscriber_id as int, text: self.text@ }
    }
}

/// The views of a sequence of dispatches, in order.
pub open spec fn dispatch_views(s: Seq<Dispatch>) -> Seq<DispatchView> {
    s.map_values(|x: Dispatch| x@)
}

/// One newly observed entry, persisted once, scoped to the day of detection.
pub struct DetectionRecord {
    pub timestamp: i64,
    pub entry: PlanEntry,
}

/// The entries a sequence of records holds, in order.
pub open spec fn record_entry_views(s: Seq<DetectionRecord>) -> Seq<EntryView> {
    s.map_values(|r: DetectionRecord| r.entry@)
}

/// A full snapshot of a day's detected entries, written once when the date
/// rolls over.
pub struct DailyArchive {
    pub date: PlanDate,
    pub entries: Vec<PlanEntry>,
}

/// The day-scoped dedup state: the tracked date, and the entries already
/// detected on that date.
pub struct DayState {
    pub date: PlanDate,
    pub seen: Vec<PlanEntry>,
}

/// Everything one tick decides: the state carried to the next tick, at most
/// one archive write, the records to persist, and the messages to send.
pub struct TickOutcome {
    pub state: DayState,
    pub archive: Option<DailyArchive>,
    pub records: Vec<DetectionRecord>,
    pub dispatches: Vec<Dispatch>,
}

/// A subscriber is affected by a class when their classes string holds it as
/// a contiguous substring.
pub open spec fn spec_subscriber_matches(classes: Seq<char>, class: Seq<char>) -> bool {
    is_substring_of(class, classes)
}

/// The dispatches one entry owes: none at all for an empty class field; else
/// one message, in stored order, to each subscriber whose classes string
/// contains the entry's class.
pub open spec fn entry_dispatches(e: EntryView, subs: Seq<SubscriberView>) -> Seq<DispatchView>
    decreases subs.len(),
{
    if subs.len() == 0 {
        Seq::empty()
    } else {
        entry_dispatches(e, subs.drop_last()) + if e.class.len() > 0 && spec_subscriber_matches(
            subs.last().classes,
            e.class,
        ) {
            seq![DispatchView { subscriber_id: subs.last().id, text: message_text(e) }]
        } else {
            Seq::empty()
        }
    }
}

/// The fetched entries not yet in the day's seen set, in fetched order,
/// judged against the set as it stood before the tick.
pub open spec fn new_entries(seen: Seq<EntryView>, fetched: Seq<EntryView>) -> Seq<EntryView>
    decreases fetched.len(),
{
    if fetched.len() == 0 {
        Seq::empty()
    } else {
        new_entries(seen, fetched.drop_last()) + if !seen.contains(fetched.last()) {
            seq![fetched.last()]
        } else {
            Seq::empty()
        }
    }
}

/// All dispatches of one tick: those of each newly detected entry, in fetched
/// order; an already-seen entry contributes none.
pub open spec fn tick_dispatches(
    seen: Seq<EntryView>,
    fetched: Seq<EntryView>,
    subs: Seq<SubscriberView>,
) -> Seq<DispatchView>
    decreases fetched.len(),
{
    if fetched.len() == 0 {
        Seq::empty()
    } else {
        tick_dispatches(seen, fetched.drop_last(), subs) + if !seen.contains(fetched.last()) {
            entry_dispatches(fetched.last(), subs)
        } else {
            Seq::empty()
        }
    }
}

/// The seen set a tick starts from: the tracked one while the date is
/// unchanged, empty right after a rollover.
pub open spec fn seen_after_roll(state: DayState, today: PlanDate) -> Seq<EntryView> {
    if state.date == today {
        entry_views(state.seen@)
    } else {
        Seq::empty()
    }
}

/// Whether a subscriber's classes string contains the class.
pub fn subscriber_matches(sub: &Subscriber, class: &str) -> (r: bool)
    ensures
        r == spec_subscriber_matches(sub@.classes, class@),
{
    contains_substring(sub.classes.as_str(), class)
}

/// Whether an entry is already among the seen ones, by field-wise equality.
pub fn contains_entry(seen: &Vec<PlanEntry>, e: &PlanEntry) -> (r: bool)
    ensures
        r == entry_views(seen@).contains(e@),
{
    let mut i: usize = 0;
    while i < seen.len()
        invariant
            i <= seen@.len(),
            forall|k: int| 0 <= k < i ==> #[trigger] seen@[k]@ != e@,
        decreases seen@.len() - i,
    {
        if crate::plan::entry_eq(&seen[i], e) {
            proof {
                assert(entry_views(seen@)[i as int] == e@);
            }
            return true;
        }
        i = i + 1;
    }
    proof {
        assert forall|k: int| 0 <= k < entry_views(seen@).len() implies #[trigger] entry_views(
            seen@,
        )[k] != e@ by {
            assert(seen@[k]@ != e@);
        }
    }
    false
}

/// The dispatches one new entry owes, resolved against the subscriber list.
pub fn dispatches_for_entry(entry: &PlanEntry, subs: &Vec<Subscriber>) -> (r: Vec<Dispatch>)
    ensures
        dispatch_views(r@) == entry_dispatches(entry@, subscriber_views(subs@)),
{
    let mut out: Vec<Dispatch> = Vec::new();
    let ghost subs_v = subscriber_views(subs@);
    if entry.class.unicode_len() == 0 {
        proof {
            lemma_empty_class_no_dispatch(entry@, subs_v);
            assert(dispatch_views(out@) =~= entry_dispatches(entry@, subs_v));
        }
        return out;
    }
    let text = build_text(entry);
    let mut i: usize = 0;
    while i < subs.len()
        invariant
            i <= subs@.len(),
            subs_v == subscriber_views(subs@),
            subs_v.len() == subs@.len(),
            entry@.class.len() > 0,
            text@ == message_text(entry@),
            dispatch_views(out@) == entry_dispatches(entry@, subs_v.take(i as int)),
        decreases subs@.len() - i,
    {
        proof {
            assert(subs_v.take(i + 1).drop_last() =~= subs_v.take(i as int));
            assert(subs_v.take(i + 1).last() == subs_v[i as int]);
            assert(subs_v[i as int] == subs@[i as int]@);
        }
        if subscriber_matches(&subs[i], entry.class.as_str()) {
            out.push(Dispatch { subscriber_id: subs[i].id, text: text.clone() });
        }
        proof {
            assert(dispatch_views(out@) =~= entry_dispatches(entry@, subs_v.take(i + 1)));
        }
        i = i + 1;
    }
    proof {
        assert(subs_v.take(subs_v.len() as int) =~= subs_v);
    }
    out
}

/// An entry whose class field is empty is skipped entirely: it owes no
/// dispatch to anyone.
pub proof fn lemma_empty_class_no_dispatch(e: EntryView, subs: Seq<SubscriberView>)
    requires
        e.class.len() == 0,
    ensures
        entry_dispatches(e, subs) == Seq::<DispatchView>::empty(),
    decreases subs.len(),
{
    if subs.len() > 0 {
        lemma_empty_class_no_dispatch(e, subs.drop_last());
        assert(entry_dispatches(e, subs) =~= Seq::<DispatchView>::empty());
    }
}

/// Hands the state on unchanged while the date is the tracked one; on a
/// changed date, archives the prior day's entries (exactly one archive, for
/// the prior date) and starts the new day's view empty.
pub fn roll_over(state: DayState, today: PlanDate) -> (r: (DayState, Option<DailyArchive>))
    ensures
        state.date == today ==> r.0 == state && r.1 is None,
        state.date != today ==> r.0.date == today && r.0.seen@ == Seq::<PlanEntry>::empty() && (
        r.1 matches Some(a) && a.date == state.date && a.entries@ == state.seen@),
{
    if state.date == today {
        (state, None)
    } else {
        let archive = DailyArchive { date: state.date, entries: state.seen };
        (DayState { date: today, seen: Vec::new() }, Some(archive))
    }
}

/// One tick's change detection and dispatch planning, in the fixed order:
/// roll the date over if it changed, then classify each fetched entry against
/// the day's seen set, record each new one once with the given timestamp, and
/// plan its dispatches; already-seen entries are skipped with no effect. The
/// carried state ends holding the seen set extended by the new entries.
pub fn run_tick(
    state: DayState,
    today: PlanDate,
    now_ts: i64,
    fetched: &Vec<PlanEntry>,
    subs: &Vec<Subscriber>,
) -> (o: TickOutcome)
    ensures
        state.date == today ==> o.archive is None,
        state.date != today ==> (o.archive matches Some(a) && a.date == state.date && a.entries@
            == state.seen@),
        o.state.date == today,
        record_entry_views(o.records@) == new_entries(
            seen_after_roll(state, today),
            entry_views(fetched@),
        ),
        forall|i: int| 0 <= i < o.records@.len() ==> #[trigger] o.records@[i].timestamp == now_ts,
        dispatch_views(o.dispatches@) == tick_dispatches(
            seen_after_roll(state, today),
            entry_views(fetched@),
            subscriber_views(subs@),
        ),
        entry_views(o.state.seen@) == seen_after_roll(state, today) + new_entries(
            seen_after_roll(state, today),
            entry_views(fetched@),
        ),
{
    let ghost seen0 = seen_after_roll(state, today);
    let ghost fetched_v = entry_views(fetched@);
    let ghost subs_v = subscriber_views(subs@);
    let (st, archive) = roll_over(state, today);
    let base = st.seen;
    proof {
        assert(entry_views(base@) =~= seen0);
    }
    let mut fresh: Vec<PlanEntry> = Vec::new();
    let mut records: Vec<DetectionRecord> = Vec::new();
    let mut dispatches: Vec<Dispatch> = Vec::new();
    let mut i: usize = 0;
    while i < fetched.len()
        invariant
            i <= fetched@.len(),
            entry_views(base@) == seen0,
            fetched_v == entry_views(fetched@),
            fetched_v.len() == fetched@.len(),
            subs_v == subscriber_views(subs@),
            entry_views(fresh@) == new_entries(seen0, fetched_v.take(i as int)),
            record_entry_views(records@) == new_entries(seen0, fetched_v.take(i as int)),
            forall|k: int| 0 <= k < records@.len() ==> #[trigger] records@[k].timestamp == now_ts,
            dispatch_views(dispatches@) == tick_dispatches(seen0, fetched_v.take(i as int), subs_v),
        decreases fetched@.len() - i,
    {
        proof {
            assert(fetched_v.take(i + 1).drop_last() =~= fetched_v.take(i as int));
            assert(fetched_v.take(i + 1).last() == fetched_v[i as int]);
            assert(fetched_v[i as int] == fetched@[i as int]@);
        }
        if !contains_entry(&base, &fetched[i]) {
            records.push(DetectionRecord { timestamp: now_ts, entry: fetched[i].clone() });
            let mut ds = dispatches_for_entry(&fetched[i], subs);
            let ghost ds_v = ds@;
            dispatches.append(&mut ds);
            fresh.push(fetched[i].clone());
            proof {
                assert(dispatch_views(dispatches@) =~= dispatch_views(
                    dispatches@.subrange(0, dispatches@.len() - ds_v.len()),
                ) + dispatch_views(ds_v));
                assert(dispatch_views(dispatches@) =~= tick_dispatches(
                    seen0,
                    fetched_v.take(i + 1),
                    subs_v,
                ));
                assert(entry_views(fresh@) =~= new_entries(seen0, fetched_v.take(i + 1)));
                assert(record_entry_views(records@) =~= new_entries(seen0, fetched_v.take(i + 1)));
            }
        } else {
            proof {
                assert(entry_views(fresh@) =~= new_entries(seen0, fetched_v.take(i + 1)));
                assert(record_entry_views(records@) =~= new_entries(seen0, fetched_v.take(i + 1)));
                assert(dispatch_views(dispatches@) =~= tick_dispatches(
                    seen0,
                    fetched_v.take(i + 1),
                    subs_v,
                ));
            }
        }
        i = i + 1;
    }
    proof {
        assert(fetched_v.take(fetched@.len() as int) =~= fetched_v);
    }
    let mut seen_vec = base;
    let mut fresh_moved = fresh;
    proof {
        assert(entry_views(seen_vec@ + fresh_moved@) =~= entry_views(seen_vec@) + entry_views(
            fresh_moved@,
        ));
    }
    seen_vec.append(&mut fresh_moved);
    let new_state = DayState { date: st.date, seen: seen_vec };
    TickOutcome { state: new_state, archive, records, dispatches }
}

} // verus!
