//! What holds of the store whatever it holds.

use vstd::prelude::*;
use crate::calendar::{date_before, is_calendar_date};
use crate::day::canonical_text;
use crate::decimal::{decimal_text, lemma_decimal_text, pow10};
use crate::pattern::is_ascii_digit;
use crate::search::{folded, occurs_at};
use crate::filtering::{lemma_filter_keeps_order, lemma_filter_twice};
use crate::model::{matches_filter, off_day, on_day, passing, Date, EntryView, StoreModel};

verus! {

/// The day list is in the order of the calendar, earliest first, under every
/// search; so no day has two rows.
pub proof fn lemma_day_list_ascending(store: StoreModel, filter: Option<Seq<char>>)
    requires
        store.wf(),
    ensures
        forall|i: int, j: int|
            0 <= i < j < store.records(filter).len() ==> date_before(
                (#[trigger] store.records(filter)[i]).day,
                (#[trigger] store.records(filter)[j]).day,
            ),
{
    lemma_filter_keeps_order(store.days, passing(filter), StoreModel::days_in_order());
    let kept = store.days.filter(passing(filter));
    assert forall|i: int, j: int| 0 <= i < j < store.records(filter).len() implies date_before(
        (#[trigger] store.records(filter)[i]).day,
        (#[trigger] store.records(filter)[j]).day,
    ) by {
        assert(StoreModel::days_in_order()(kept[i], kept[j]));
    }
}

/// The day list holds the row of a day exactly when the day is registered and
/// passes the search, and it holds nothing but such rows.
pub proof fn lemma_day_list_members(store: StoreModel, filter: Option<Seq<char>>)
    requires
        store.wf(),
    ensures
        forall|day: Date|
            store.has_day(day) && matches_filter(day, filter) ==> store.records(filter).contains(
                #[trigger] store.record_of(day),
            ),
        forall|i: int|
            0 <= i < store.records(filter).len() ==> {
                let row = #[trigger] store.records(filter)[i];
                &&& row == store.record_of(row.day)
                &&& store.has_day(row.day)
                &&& matches_filter(row.day, filter)
            },
{
    lemma_filter_keeps_order(store.days, passing(filter), StoreModel::days_in_order());
    let kept = store.days.filter(passing(filter));
    let rows = store.records(filter);
    assert forall|day: Date| store.has_day(day) && matches_filter(day, filter) implies rows.contains(
        #[trigger] store.record_of(day),
    ) by {
        let k = choose|k: int| 0 <= k < store.days.len() && store.days[k] == day;
        assert(passing(filter)(store.days[k]));
        assert(kept.contains(store.days[k]));
        let at = choose|at: int| 0 <= at < kept.len() && kept[at] == day;
        assert(rows[at] == store.record_of(day));
    }
    assert forall|i: int| 0 <= i < rows.len() implies {
        let row = #[trigger] rows[i];
        &&& row == store.record_of(row.day)
        &&& store.has_day(row.day)
        &&& matches_filter(row.day, filter)
    } by {
        assert(store.days.contains(kept[i]) && passing(filter)(kept[i]));
    }
}

/// A search for the empty text is no search: it gives the whole day list.
pub proof fn lemma_empty_search_lists_all(store: StoreModel)
    ensures
        store.records(Some(Seq::<char>::empty())) == store.records(None),
{
    let empty = Some(Seq::<char>::empty());
    assert forall|day: Date| #[trigger] passing(empty)(day) == passing(None)(day) by {
        assert(occurs_at(canonical_text(day), Seq::<char>::empty(), 0));
    }
    assert(passing(empty) =~= passing(None));
}

/// In the canonical text of a day letter case is of no account: a search text
/// is held exactly when it stands there character for character.
pub proof fn lemma_search_is_exact_on_days(day: Date, needle: Seq<char>)
    requires
        is_calendar_date(day.0, day.1, day.2),
    ensures
        matches_filter(day, Some(needle)) == exists|at: int|
            0 <= at && at + needle.len() <= 10 && #[trigger] canonical_text(day).subrange(
                at,
                at + needle.len(),
            ) == needle,
{
    let text = canonical_text(day);
    reveal_with_fuel(pow10, 5);
    lemma_decimal_text(day.0, 4);
    lemma_decimal_text(day.1, 2);
    lemma_decimal_text(day.2, 2);
    assert(text.len() == 10);
    assert forall|i: int| 0 <= i < 10 implies is_ascii_digit(#[trigger] text[i]) || text[i]
        == '-' by {
        if i < 4 {
            assert(text[i] == decimal_text(day.0, 4)[i]);
        } else if 5 <= i < 7 {
            assert(text[i] == decimal_text(day.1, 2)[i - 5]);
        } else if 8 <= i {
            assert(text[i] == decimal_text(day.2, 2)[i - 8]);
        }
    }
    if matches_filter(day, Some(needle)) {
        let at = choose|at: int| occurs_at(text, needle, at);
        assert forall|i: int| 0 <= i < needle.len() implies text[at + i] == needle[i] by {
            assert(folded(text[at + i]) == folded(needle[i]));
            assert(is_ascii_digit(text[at + i]) || text[at + i] == '-');
        }
        assert(text.subrange(at, at + needle.len()) =~= needle);
    }
    if exists|at: int|
        0 <= at && at + needle.len() <= 10 && #[trigger] text.subrange(at, at + needle.len())
            == needle {
        let at = choose|at: int|
            0 <= at && at + needle.len() <= 10 && #[trigger] text.subrange(at, at + needle.len())
                == needle;
        assert forall|i: int| 0 <= i < needle.len() implies folded(text[at + i]) == folded(
            #[trigger] needle[i],
        ) by {
            assert(text.subrange(at, at + needle.len())[i] == text[at + i]);
        }
        assert(occurs_at(text, needle, at));
    }
}

/// Registering a day twice is registering it once: the second time changes
/// nothing, and the day stands in the registry exactly once.
pub proof fn lemma_register_twice(store: StoreModel, day: Date)
    requires
        store.wf(),
        is_calendar_date(day.0, day.1, day.2),
    ensures
        store.with_day(day).with_day(day) == store.with_day(day),
        store.with_day(day).has_day(day),
        forall|i: int, j: int|
            0 <= i < store.with_day(day).days.len() && 0 <= j < store.with_day(day).days.len()
                && #[trigger] store.with_day(day).days[i] == day && #[trigger] store.with_day(
                day,
            ).days[j] == day ==> i == j,
{
    store.lemma_with_day(day);
    let days = store.with_day(day).days;
    assert forall|i: int, j: int|
        0 <= i < days.len() && 0 <= j < days.len() && #[trigger] days[i] == day
            && #[trigger] days[j] == day implies i == j by {
        if i < j {
            assert(date_before(days[i], days[j]));
        }
        if j < i {
            assert(date_before(days[j], days[i]));
        }
    }
}

/// An entry put in for one day is among the entries of that day and changes
/// the entries of no other day.
pub proof fn lemma_entry_isolation(store: StoreModel, entry: EntryView, other: Date)
    requires
        store.wf(),
        other != entry.day,
    ensures
        store.with_entry(entry).entries_of(other) == store.entries_of(other),
        store.with_entry(entry).entries_of(entry.day).contains(entry),
{
    store.lemma_place_of_entry(entry.created_at);
    let place = store.place_of_entry(entry.created_at);
    let front = store.entries.take(place);
    let back = store.entries.skip(place);
    let after = store.with_entry(entry).entries;
    assert(after =~= front.push(entry) + back);
    assert(store.entries =~= front + back);
    Seq::filter_distributes_over_add(front.push(entry), back, on_day(other));
    Seq::filter_distributes_over_add(front, back, on_day(other));
    front.lemma_filter_push(entry, on_day(other));
    Seq::filter_distributes_over_add(front.push(entry), back, on_day(entry.day));
    front.lemma_filter_push(entry, on_day(entry.day));
    let mine = front.filter(on_day(entry.day)).push(entry) + back.filter(on_day(entry.day));
    assert(mine[front.filter(on_day(entry.day)).len() as int] == entry);
}

/// After a day is removed with its entries it has no entries and no row in
/// the day list, whatever the search; the other days keep theirs.
pub proof fn lemma_cascade_removes_all(store: StoreModel, day: Date, filter: Option<Seq<char>>)
    requires
        store.wf(),
    ensures
        store.without_day(day).wf(),
        store.without_day(day).entries_of(day) == Seq::<EntryView>::empty(),
        forall|i: int|
            0 <= i < store.without_day(day).records(filter).len() ==> (
            #[trigger] store.without_day(day).records(filter)[i]).day != day,
        forall|other: Date|
            other != day ==> store.without_day(day).has_day(other) == store.has_day(other),
        forall|other: Date|
            other != day ==> #[trigger] store.without_day(day).entries_of(other)
                == store.entries_of(other),
{
    store.lemma_without_day(day);
    lemma_day_list_members(store.without_day(day), filter);
    assert forall|other: Date| other != day implies #[trigger] store.without_day(day).entries_of(
        other,
    ) == store.entries_of(other) by {
        lemma_filter_twice(store.entries, off_day(day), on_day(other));
    }
}

} // verus!
