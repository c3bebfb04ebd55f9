//! The archive as mathematics: what the store holds and what each of its
//! operations makes of it.

use vstd::prelude::*;
use crate::calendar::{date_before, is_calendar_date};
use crate::day::canonical_text;
use crate::filtering::{
    lemma_filter_all, lemma_filter_front, lemma_filter_keeps_order, lemma_filter_none,
    lemma_filter_one_out,
};
use crate::search::contains_folded;

verus! {

/// A date as (year, month, day).
pub type Date = (int, int, int);

/// One entry of the archive.
pub struct EntryView {
    /// The identifier that the store gave it.
    pub id: int,
    /// The day it belongs to.
    pub day: Date,
    /// Its text.
    pub content: Seq<char>,
    /// When it was made.
    pub created_at: int,
}

/// One row of the day list: a registered day and the number of its entries.
pub struct RecordView {
    pub day: Date,
    pub entry_count: int,
}

/// The days that pass a search: every day when there is no search text, else
/// those whose canonical text holds the search text, letter case apart.
pub open spec fn matches_filter(day: Date, filter: Option<Seq<char>>) -> bool {
    match filter {
        None => true,
        Some(needle) => contains_folded(canonical_text(day), needle),
    }
}

/// The days that are earlier than `day`.
pub open spec fn earlier_than(day: Date) -> spec_fn(Date) -> bool {
    |d: Date| date_before(d, day)
}

/// The days other than `day`.
pub open spec fn other_day(day: Date) -> spec_fn(Date) -> bool {
    |d: Date| d != day
}

/// The days that pass the search.
pub open spec fn passing(filter: Option<Seq<char>>) -> spec_fn(Date) -> bool {
    |d: Date| matches_filter(d, filter)
}

/// The entries that belong to `day`.
pub open spec fn on_day(day: Date) -> spec_fn(EntryView) -> bool {
    |e: EntryView| e.day == day
}

/// The entries that do not belong to `day`.
pub open spec fn off_day(day: Date) -> spec_fn(EntryView) -> bool {
    |e: EntryView| e.day != day
}

/// The entries with another identifier than `id`.
pub open spec fn other_id(id: int) -> spec_fn(EntryView) -> bool {
    |e: EntryView| e.id != id
}

/// The entries that were made at `created_at` or before.
pub open spec fn not_younger_than(created_at: int) -> spec_fn(EntryView) -> bool {
    |e: EntryView| e.created_at <= created_at
}

/// What the store holds.
pub struct StoreModel {
    /// The registered days, earliest first.
    pub days: Seq<Date>,
    /// The entries, oldest first.
    pub entries: Seq<EntryView>,
    /// A number above every identifier in use.
    pub next_id: int,
}

impl StoreModel {
    /// The store that holds nothing.
    pub open spec fn empty() -> StoreModel {
        StoreModel { days: Seq::empty(), entries: Seq::empty(), next_id: 0 }
    }

    /// What holds of every store: the days are dates of the calendar in
    /// strictly ascending order, so none stands twice; the entries stand in
    /// the order of their making; no identifier is used twice, and all are
    /// below `next_id`; every entry belongs to a registered day.
    pub open spec fn wf(self) -> bool {
        &&& forall|i: int|
            0 <= i < self.days.len() ==> is_calendar_date(
                (#[trigger] self.days[i]).0,
                self.days[i].1,
                self.days[i].2,
            )
        &&& forall|i: int, j: int|
            0 <= i < j < self.days.len() ==> date_before(#[trigger] self.days[i], #[trigger] self.days[j])
        &&& forall|i: int, j: int|
            0 <= i < j < self.entries.len() ==> (#[trigger] self.entries[i]).created_at <= (
            #[trigger] self.entries[j]).created_at
        &&& forall|i: int, j: int|
            0 <= i < j < self.entries.len() ==> (#[trigger] self.entries[i]).id != (
            #[trigger] self.entries[j]).id
        &&& forall|i: int|
            0 <= i < self.entries.len() ==> 0 <= (#[trigger] self.entries[i]).id < self.next_id
                && self.days.contains(self.entries[i].day)
        &&& 0 <= self.next_id
    }

    /// The day is registered.
    pub open spec fn has_day(self, day: Date) -> bool {
        self.days.contains(day)
    }

    /// An entry with this identifier is held.
    pub open spec fn has_entry(self, id: int) -> bool {
        exists|i: int| 0 <= i < self.entries.len() && (#[trigger] self.entries[i]).id == id
    }

    /// The entries of one day, oldest first.
    pub open spec fn entries_of(self, day: Date) -> Seq<EntryView> {
        self.entries.filter(on_day(day))
    }

    /// The row of the day list for `day`.
    pub open spec fn record_of(self, day: Date) -> RecordView {
        RecordView { day, entry_count: self.entries_of(day).len() as int }
    }

    /// The function from a day to its row of the day list.
    pub open spec fn row_of(self) -> spec_fn(Date) -> RecordView {
        |d: Date| self.record_of(d)
    }

    /// The day list under a search: the rows of the days that pass it,
    /// earliest first.
    pub open spec fn records(self, filter: Option<Seq<char>>) -> Seq<RecordView> {
        self.days.filter(passing(filter)).map_values(self.row_of())
    }

    /// The number of registered days that are earlier than `day`: the place
    /// of `day` in the list.
    pub open spec fn place_of_day(self, day: Date) -> int {
        self.days.filter(earlier_than(day)).len() as int
    }

    /// The number of entries that are not younger than `created_at`: the
    /// place of a new entry of that time.
    pub open spec fn place_of_entry(self, created_at: int) -> int {
        self.entries.filter(not_younger_than(created_at)).len() as int
    }

    /// The store after `day` is registered: unchanged when it was, else with
    /// `day` at its place.
    pub open spec fn with_day(self, day: Date) -> StoreModel {
        if self.has_day(day) {
            self
        } else {
            StoreModel { days: self.days.insert(self.place_of_day(day), day), ..self }
        }
    }

    /// The store after `entry` is put in: its day registered, the entry
    /// behind all that are not younger, `next_id` above its identifier.
    pub open spec fn with_entry(self, entry: EntryView) -> StoreModel {
        StoreModel {
            days: self.with_day(entry.day).days,
            entries: self.entries.insert(self.place_of_entry(entry.created_at), entry),
            next_id: if entry.id < self.next_id {
                self.next_id
            } else {
                entry.id + 1
            },
        }
    }

    /// The store without the entry of this identifier.
    pub open spec fn without_entry(self, id: int) -> StoreModel {
        StoreModel { entries: self.entries.filter(other_id(id)), ..self }
    }

    /// The store without `day` and without its entries.
    pub open spec fn without_day(self, day: Date) -> StoreModel {
        StoreModel {
            days: self.days.filter(other_day(day)),
            entries: self.entries.filter(off_day(day)),
            ..self
        }
    }
}

impl StoreModel {
    /// The place of a day parts the registered days: those before it are
    /// earlier than the day, those from it on are not, and the day itself, if
    /// registered, stands at its place.
    pub proof fn lemma_place_of_day(self, day: Date)
        requires
            self.wf(),
        ensures
            0 <= self.place_of_day(day) <= self.days.len(),
            forall|i: int| 0 <= i < self.place_of_day(day) ==> date_before(#[trigger] self.days[i], day),
            forall|i: int|
                self.place_of_day(day) <= i < self.days.len() ==> !date_before(
                    #[trigger] self.days[i],
                    day,
                ),
            self.has_day(day) == (self.place_of_day(day) < self.days.len()
                && self.days[self.place_of_day(day)] == day),
    {
        let earlier = earlier_than(day);
        lemma_filter_front(self.days, earlier);
        let place = self.place_of_day(day);
        if self.has_day(day) {
            let k = choose|k: int| 0 <= k < self.days.len() && self.days[k] == day;
            if k < place {
                assert(earlier(self.days[k]));
            }
            if k > place {
                assert(date_before(self.days[place], self.days[k]));
                assert(!earlier(self.days[place]));
            }
        }
    }

    /// Registering a date of the calendar keeps the store well formed, adds
    /// that day and no other, and leaves the entries alone.
    pub proof fn lemma_with_day(self, day: Date)
        requires
            self.wf(),
            is_calendar_date(day.0, day.1, day.2),
        ensures
            self.with_day(day).wf(),
            self.with_day(day).has_day(day),
            forall|d: Date| self.with_day(day).has_day(d) == (self.has_day(d) || d == day),
            self.with_day(day).entries == self.entries,
            self.with_day(day).next_id == self.next_id,
    {
        self.lemma_place_of_day(day);
        if !self.has_day(day) {
            let place = self.place_of_day(day);
            let after = self.with_day(day);
            assert(after.days[place] == day);
            assert forall|i: int, j: int| 0 <= i < j < after.days.len() implies date_before(
                #[trigger] after.days[i],
                #[trigger] after.days[j],
            ) by {
                if j == place {
                    assert(after.days[i] == self.days[i]);
                } else if i == place {
                    assert(after.days[j] == self.days[j - 1]);
                    assert(!date_before(self.days[j - 1], day));
                    assert(self.days.contains(self.days[j - 1]));
                } else {
                    let a = if i < place { i } else { i - 1 };
                    let b = if j < place { j } else { j - 1 };
                    assert(after.days[i] == self.days[a] && after.days[j] == self.days[b]);
                }
            }
            assert forall|d: Date| after.has_day(d) == (self.has_day(d) || d == day) by {
                if self.has_day(d) {
                    let k = choose|k: int| 0 <= k < self.days.len() && self.days[k] == d;
                    let at = if k < place { k } else { k + 1 };
                    assert(after.days[at] == d);
                }
                if after.has_day(d) && d != day {
                    let k = choose|k: int| 0 <= k < after.days.len() && after.days[k] == d;
                    let at = if k < place { k } else { k - 1 };
                    assert(self.days[at] == d);
                }
            }
            assert forall|i: int| 0 <= i < after.days.len() implies is_calendar_date(
                (#[trigger] after.days[i]).0,
                after.days[i].1,
                after.days[i].2,
            ) by {
                if i != place {
                    let at = if i < place { i } else { i - 1 };
                    assert(after.days[i] == self.days[at]);
                }
            }
            assert forall|i: int| 0 <= i < after.entries.len() implies after.days.contains(
                (#[trigger] after.entries[i]).day,
            ) by {
                assert(self.has_day(self.entries[i].day));
                assert(after.has_day(self.entries[i].day));
            }
        }
    }
}

impl StoreModel {
    /// The place of a new entry parts the entries: those before it are not
    /// younger than the new one, those from it on are.
    pub proof fn lemma_place_of_entry(self, created_at: int)
        requires
            self.wf(),
        ensures
            0 <= self.place_of_entry(created_at) <= self.entries.len(),
            forall|i: int|
                0 <= i < self.place_of_entry(created_at) ==> (#[trigger] self.entries[i]).created_at
                    <= created_at,
            forall|i: int|
                self.place_of_entry(created_at) <= i < self.entries.len() ==> (
                #[trigger] self.entries[i]).created_at > created_at,
    {
        lemma_filter_front(self.entries, not_younger_than(created_at));
        let place = self.place_of_entry(created_at);
        assert forall|i: int| 0 <= i < place implies (#[trigger] self.entries[i]).created_at
            <= created_at by {
            assert(not_younger_than(created_at)(self.entries[i]));
        }
        assert forall|i: int| place <= i < self.entries.len() implies (
        #[trigger] self.entries[i]).created_at > created_at by {
            assert(!not_younger_than(created_at)(self.entries[i]));
        }
    }

    /// Putting in an entry of a date of the calendar, under an identifier
    /// that is not in use, keeps the store well formed, and adds that entry
    /// and no other.
    pub proof fn lemma_with_entry(self, entry: EntryView)
        requires
            self.wf(),
            is_calendar_date(entry.day.0, entry.day.1, entry.day.2),
            0 <= entry.id,
            !self.has_entry(entry.id),
        ensures
            self.with_entry(entry).wf(),
            self.with_entry(entry).has_day(entry.day),
            self.with_entry(entry).has_entry(entry.id),
            self.with_entry(entry).entries.len() == self.entries.len() + 1,
            forall|id: int|
                self.with_entry(entry).has_entry(id) == (self.has_entry(id) || id == entry.id),
    {
        self.lemma_place_of_entry(entry.created_at);
        self.lemma_with_day(entry.day);
        let place = self.place_of_entry(entry.created_at);
        let after = self.with_entry(entry);
        assert(after.entries[place] == entry);
        assert forall|i: int| 0 <= i < after.entries.len() implies 0 <= (
        #[trigger] after.entries[i]).id < after.next_id && after.days.contains(
            after.entries[i].day,
        ) by {
            if i != place {
                let at = if i < place { i } else { i - 1 };
                assert(after.entries[i] == self.entries[at]);
                assert(self.has_day(self.entries[at].day));
                assert(self.with_day(entry.day).has_day(self.entries[at].day));
            }
        }
        assert forall|i: int, j: int| 0 <= i < j < after.entries.len() implies (
        #[trigger] after.entries[i]).created_at <= (#[trigger] after.entries[j]).created_at
            && after.entries[i].id != after.entries[j].id by {
            let a = if i < place { i } else { i - 1 };
            let b = if j < place { j } else { j - 1 };
            if i != place {
                assert(after.entries[i] == self.entries[a]);
            }
            if j != place {
                assert(after.entries[j] == self.entries[b]);
            }
        }
        assert forall|id: int| after.has_entry(id) == (self.has_entry(id) || id == entry.id) by {
            if self.has_entry(id) {
                let k = choose|k: int| 0 <= k < self.entries.len() && self.entries[k].id == id;
                let at = if k < place { k } else { k + 1 };
                assert(after.entries[at] == self.entries[k]);
            }
            if after.has_entry(id) && id != entry.id {
                let k = choose|k: int| 0 <= k < after.entries.len() && after.entries[k].id == id;
                let at = if k < place { k } else { k - 1 };
                assert(self.entries[at] == after.entries[k]);
            }
        }
    }
}

impl StoreModel {
    /// The entries stand in the order of their making, and no two share an
    /// identifier.
    pub open spec fn entries_in_order() -> spec_fn(EntryView, EntryView) -> bool {
        |a: EntryView, b: EntryView| a.created_at <= b.created_at && a.id != b.id
    }

    /// The days stand in the order of the calendar.
    pub open spec fn days_in_order() -> spec_fn(Date, Date) -> bool {
        |a: Date, b: Date| date_before(a, b)
    }

    /// Whatever filter is laid on the entries of a well-formed store, and
    /// whatever days are kept with them, the store stays well formed as long
    /// as the day of every entry kept is kept too.
    proof fn lemma_filtered_wf(
        self,
        keep_day: spec_fn(Date) -> bool,
        keep_entry: spec_fn(EntryView) -> bool,
    )
        requires
            self.wf(),
            forall|e: EntryView| #[trigger] keep_entry(e) ==> keep_day(e.day),
        ensures
            (StoreModel {
                days: self.days.filter(keep_day),
                entries: self.entries.filter(keep_entry),
                ..self
            }).wf(),
            forall|d: Date|
                self.days.filter(keep_day).contains(d) == (self.days.contains(d) && keep_day(d)),
            forall|e: EntryView|
                self.entries.filter(keep_entry).contains(e) == (self.entries.contains(e)
                    && keep_entry(e)),
    {
        let days = self.days.filter(keep_day);
        let entries = self.entries.filter(keep_entry);
        lemma_filter_keeps_order(self.days, keep_day, Self::days_in_order());
        lemma_filter_keeps_order(self.entries, keep_entry, Self::entries_in_order());
        assert forall|i: int, j: int| 0 <= i < j < days.len() implies date_before(
            #[trigger] days[i],
            #[trigger] days[j],
        ) by {
            assert(Self::days_in_order()(days[i], days[j]));
        }
        assert forall|i: int, j: int| 0 <= i < j < entries.len() implies (
        #[trigger] entries[i]).created_at <= (#[trigger] entries[j]).created_at && entries[i].id
            != entries[j].id by {
            assert(Self::entries_in_order()(entries[i], entries[j]));
        }
        assert forall|d: Date| days.contains(d) == (self.days.contains(d) && keep_day(d)) by {
            if days.contains(d) {
                let k = choose|k: int| 0 <= k < days.len() && days[k] == d;
                assert(self.days.contains(days[k]) && keep_day(days[k]));
            }
            if self.days.contains(d) && keep_day(d) {
                let k = choose|k: int| 0 <= k < self.days.len() && self.days[k] == d;
                assert(days.contains(self.days[k]));
            }
        }
        assert forall|e: EntryView|
            entries.contains(e) == (self.entries.contains(e) && keep_entry(e)) by {
            if entries.contains(e) {
                let k = choose|k: int| 0 <= k < entries.len() && entries[k] == e;
                assert(self.entries.contains(entries[k]) && keep_entry(entries[k]));
            }
            if self.entries.contains(e) && keep_entry(e) {
                let k = choose|k: int| 0 <= k < self.entries.len() && self.entries[k] == e;
                assert(entries.contains(self.entries[k]));
            }
        }
        assert forall|i: int| 0 <= i < days.len() implies is_calendar_date(
            (#[trigger] days[i]).0,
            days[i].1,
            days[i].2,
        ) by {
            assert(self.days.contains(days[i]));
            let k = choose|k: int| 0 <= k < self.days.len() && self.days[k] == days[i];
            assert(is_calendar_date(self.days[k].0, self.days[k].1, self.days[k].2));
        }
        assert forall|i: int| 0 <= i < entries.len() implies 0 <= (#[trigger] entries[i]).id
            < self.next_id && days.contains(entries[i].day) by {
            assert(self.entries.contains(entries[i]) && keep_entry(entries[i]));
            let k = choose|k: int| 0 <= k < self.entries.len() && self.entries[k] == entries[i];
            assert(self.days.contains(self.entries[k].day));
        }
    }

    /// Taking an entry out keeps the store well formed, removes the entry of
    /// that identifier and no other, and leaves the days alone. Where no
    /// entry has the identifier, nothing changes.
    pub proof fn lemma_without_entry(self, id: int)
        requires
            self.wf(),
        ensures
            self.without_entry(id).wf(),
            !self.without_entry(id).has_entry(id),
            forall|other: int|
                other != id ==> self.without_entry(id).has_entry(other) == self.has_entry(other),
            !self.has_entry(id) ==> self.without_entry(id) == self,
            forall|at: int|
                0 <= at < self.entries.len() && self.entries[at].id == id ==> self.without_entry(
                    id,
                ).entries == self.entries.remove(at),
    {
        let after = self.without_entry(id);
        self.lemma_filtered_wf(|d: Date| true, other_id(id));
        lemma_filter_all(self.days, |d: Date| true);
        assert(after.days == self.days);
        if after.has_entry(id) {
            let k = choose|k: int| 0 <= k < after.entries.len() && after.entries[k].id == id;
            assert(after.entries.contains(after.entries[k]));
        }
        assert forall|other: int| other != id implies after.has_entry(other) == self.has_entry(
            other,
        ) by {
            if after.has_entry(other) {
                let k = choose|k: int|
                    0 <= k < after.entries.len() && after.entries[k].id == other;
                let e = after.entries[k];
                assert(after.entries.contains(e));
                assert(self.entries.contains(e));
                let j = choose|j: int| 0 <= j < self.entries.len() && self.entries[j] == e;
                assert(self.entries[j].id == other);
            }
            if self.has_entry(other) {
                let k = choose|k: int| 0 <= k < self.entries.len() && self.entries[k].id == other;
                let e = self.entries[k];
                assert(self.entries.contains(e));
                assert(other_id(id)(e));
                assert(after.entries.contains(e));
                let j = choose|j: int| 0 <= j < after.entries.len() && after.entries[j] == e;
                assert(after.entries[j].id == other);
            }
        }
        if !self.has_entry(id) {
            lemma_filter_all(self.entries, other_id(id));
        }
        assert forall|at: int|
            0 <= at < self.entries.len() && self.entries[at].id == id implies after.entries
            == self.entries.remove(at) by {
            lemma_filter_one_out(self.entries, other_id(id), at);
        }
    }

    /// Taking a day out with its entries keeps the store well formed,
    /// removes that day and its entries, and no others.
    pub proof fn lemma_without_day(self, day: Date)
        requires
            self.wf(),
        ensures
            self.without_day(day).wf(),
            !self.without_day(day).has_day(day),
            self.without_day(day).entries_of(day) == Seq::<EntryView>::empty(),
            forall|d: Date| d != day ==> self.without_day(day).has_day(d) == self.has_day(d),
            !self.has_day(day) ==> self.without_day(day) == self,
            self.entries_of(day).len() == 0 ==> self.without_day(day).entries == self.entries,
            forall|at: int|
                0 <= at < self.days.len() && self.days[at] == day ==> self.without_day(day).days
                    == self.days.remove(at),
    {
        let after = self.without_day(day);
        self.lemma_filtered_wf(other_day(day), off_day(day));
        lemma_filter_keeps_order(self.entries, off_day(day), Self::entries_in_order());
        lemma_filter_none(after.entries, on_day(day));
        lemma_filter_keeps_order(self.entries, on_day(day), Self::entries_in_order());
        if self.entries_of(day).len() == 0 {
            assert forall|i: int| 0 <= i < self.entries.len() implies off_day(day)(
                #[trigger] self.entries[i],
            ) by {
                if on_day(day)(self.entries[i]) {
                    assert(self.entries_of(day).contains(self.entries[i]));
                }
            }
            lemma_filter_all(self.entries, off_day(day));
        }
        if !self.has_day(day) {
            assert forall|i: int| 0 <= i < self.days.len() implies other_day(day)(
                #[trigger] self.days[i],
            ) by {
                assert(self.days.contains(self.days[i]));
            }
            lemma_filter_all(self.days, other_day(day));
            assert forall|i: int| 0 <= i < self.entries.len() implies off_day(day)(
                #[trigger] self.entries[i],
            ) by {
                assert(self.days.contains(self.entries[i].day));
            }
            lemma_filter_all(self.entries, off_day(day));
        }
        assert forall|at: int| 0 <= at < self.days.len() && self.days[at] == day implies after.days
            == self.days.remove(at) by {
            assert forall|i: int| 0 <= i < self.days.len() && i != at implies other_day(day)(
                #[trigger] self.days[i],
            ) by {
                if i < at {
                    assert(date_before(self.days[i], self.days[at]));
                } else {
                    assert(date_before(self.days[at], self.days[i]));
                }
            }
            lemma_filter_one_out(self.days, other_day(day), at);
        }
    }
}

} // verus!
