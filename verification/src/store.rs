//! The archive store: the registry of days and of their entries.

use vstd::prelude::*;
use vstd::string::*;
use crate::calendar::date_before;
use crate::day::Day;
use crate::entry::{ArchiveEntry, DayRecord};
use crate::search::contains_ignoring_case;
use crate::model::{off_day, on_day, passing, Date, EntryView, RecordView, StoreModel};

verus! {

/// The dates of a sequence of days.
pub open spec fn day_views(days: Seq<Day>) -> Seq<Date> {
    Seq::new(days.len(), |i: int| days[i]@)
}

/// The views of a sequence of entries.
pub open spec fn entry_views(entries: Seq<ArchiveEntry>) -> Seq<EntryView> {
    Seq::new(entries.len(), |i: int| entries[i]@)
}

/// The views of a sequence of rows.
pub open spec fn record_views(records: Seq<DayRecord>) -> Seq<RecordView> {
    Seq::new(records.len(), |i: int| records[i]@)
}

/// Why the store did not do what was asked.
#[derive(Clone, Copy, Debug, PartialEq, Eq, Structural)]
pub enum ArchiveError {
    /// The store cannot take the write: the identifier is in use, or no
    /// identifier is left.
    StoreError,
    /// The day has entries, and only a cascading delete removes those.
    DayNotEmpty,
}

/// The search text as the model takes it.
pub open spec fn search_text(filter: Option<&str>) -> Option<Seq<char>> {
    match filter {
        None => None,
        Some(text) => Some(text@),
    }
}

/// The registry of days and entries.
#[derive(Debug)]
pub struct Store {
    days: Vec<Day>,
    entries: Vec<ArchiveEntry>,
    next_id: u64,
}

impl View for Store {
    type V = StoreModel;

    closed spec fn view(&self) -> StoreModel {
        StoreModel {
            days: day_views(self.days@),
            entries: entry_views(self.entries@),
            next_id: self.next_id as int,
        }
    }
}

impl Store {
    /// Holds of every store that a program can hold.
    #[verifier::type_invariant]
    pub closed spec fn is_valid(&self) -> bool {
        self@.wf()
    }

    /// The store that holds nothing.
    pub fn new() -> (store: Store)
        ensures
            store@ == StoreModel::empty(),
            store.is_valid(),
    {
        let store = Store { days: Vec::new(), entries: Vec::new(), next_id: 0 };
        assert(store@.days =~= Seq::<Date>::empty());
        assert(store@.entries =~= Seq::<EntryView>::empty());
        store
    }

    /// Takes the store apart and leaves it empty, so that its parts can be
    /// changed and put together again.
    fn take_parts(&mut self) -> (parts: (Vec<Day>, Vec<ArchiveEntry>, u64))
        ensures
            day_views(parts.0@) == old(self)@.days,
            entry_views(parts.1@) == old(self)@.entries,
            parts.2 as int == old(self)@.next_id,
            final(self)@ == StoreModel::empty(),
    {
        let mut taken = Store::new();
        std::mem::swap(self, &mut taken);
        let Store { days, entries, next_id } = taken;
        (days, entries, next_id)
    }

    /// The place of `day` among the registered days.
    fn day_position(&self, day: &Day) -> (pos: usize)
        ensures
            pos as int == self@.place_of_day(day@),
    {
        proof {
            use_type_invariant(self);
            self@.lemma_place_of_day(day@);
        }
        let mut i: usize = 0;
        while i < self.days.len() && self.days[i] < *day
            invariant
                i <= self.days.len(),
                forall|j: int| 0 <= j < i ==> date_before(#[trigger] self@.days[j], day@),
            decreases self.days.len() - i,
        {
            i = i + 1;
        }
        proof {
            let place = self@.place_of_day(day@);
            if place < i {
                assert(date_before(self@.days[place], day@));
            }
            if i < place {
                assert(date_before(self@.days[i as int], day@));
            }
        }
        i
    }

    /// The number of entries that `day` has.
    fn count_entries(&self, day: &Day) -> (count: usize)
        ensures
            count as int == self@.entries_of(day@).len(),
    {
        let mut count: usize = 0;
        let mut i: usize = 0;
        while i < self.entries.len()
            invariant
                i <= self.entries.len(),
                count <= i,
                count as int == self@.entries.take(i as int).filter(on_day(day@)).len(),
            decreases self.entries.len() - i,
        {
            let entry_day = self.entries[i].day();
            proof {
                let seen = self@.entries.take(i as int);
                assert(self@.entries.take(i as int + 1) =~= seen.push(self@.entries[i as int]));
                seen.lemma_filter_push(self@.entries[i as int], on_day(day@));
                entry_day.lemma_view_injective(*day);
            }
            if entry_day == *day {
                count = count + 1;
            }
            i = i + 1;
        }
        proof {
            assert(self@.entries.take(i as int) =~= self@.entries);
        }
        count
    }

    /// Registers `day` if it is not registered yet, and gives its row of the
    /// day list.
    pub fn upsert_day(&mut self, day: Day) -> (record: DayRecord)
        ensures
            final(self)@ == old(self)@.with_day(day@),
            record@ == final(self)@.record_of(day@),
            final(self).is_valid(),
    {
        proof {
            use_type_invariant(&*self);
            use_type_invariant(&day);
            day.lemma_valid_view();
            self@.lemma_place_of_day(day@);
            self@.lemma_with_day(day@);
        }
        let pos = self.day_position(&day);
        let registered = pos < self.days.len() && self.days[pos] == day;
        proof {
            if pos < self.days.len() {
                self.days[pos as int].lemma_view_injective(day);
            }
        }
        if !registered {
            let (mut days, entries, next_id) = self.take_parts();
            days.insert(pos, day);
            proof {
                assert(day_views(days@) =~= old(self)@.days.insert(pos as int, day@));
            }
            *self = Store { days, entries, next_id };
        }
        let count = self.count_entries(&day);
        DayRecord::assemble(day, count)
    }

    /// The place of a new entry made at `created_at`.
    fn entry_position(&self, created_at: u64) -> (pos: usize)
        ensures
            pos as int == self@.place_of_entry(created_at as int),
    {
        proof {
            use_type_invariant(self);
            self@.lemma_place_of_entry(created_at as int);
        }
        let mut i: usize = self.entries.len();
        while i > 0 && self.entries[i - 1].created_at() > created_at
            invariant
                i <= self.entries.len(),
                forall|j: int|
                    i <= j < self.entries.len() ==> (#[trigger] self@.entries[j]).created_at
                        > created_at,
            decreases i,
        {
            i = i - 1;
        }
        proof {
            let place = self@.place_of_entry(created_at as int);
            if place < i {
                assert(self@.entries[i - 1].created_at <= created_at);
            }
            if i < place {
                assert(self@.entries[i as int].created_at > created_at);
            }
        }
        i
    }

    /// The position of the entry with this identifier, if one is held.
    fn entry_index(&self, id: u64) -> (found: Option<usize>)
        ensures
            match found {
                Some(at) => at < self@.entries.len() && self@.entries[at as int].id == id,
                None => !self@.has_entry(id as int),
            },
    {
        let mut i: usize = 0;
        while i < self.entries.len()
            invariant
                i <= self.entries.len(),
                forall|j: int| 0 <= j < i ==> (#[trigger] self@.entries[j]).id != id,
            decreases self.entries.len() - i,
        {
            if self.entries[i].id() == id {
                return Some(i);
            }
            i = i + 1;
        }
        None
    }

    /// Decides whether an entry with this identifier is held.
    pub fn has_entry(&self, id: u64) -> (held: bool)
        ensures
            held == self@.has_entry(id as int),
    {
        self.entry_index(id).is_some()
    }

    /// Puts back an entry that was made before, under the identifier and the
    /// time that it was made with, and registers its day. The store refuses
    /// an identifier that is in use and the largest number there is, and is
    /// then unchanged.
    pub fn restore_entry(&mut self, id: u64, day: Day, content: String, created_at: u64) -> (r:
        Result<ArchiveEntry, ArchiveError>)
        ensures
            final(self).is_valid(),
            match r {
                Ok(entry) => {
                    &&& !old(self)@.has_entry(id as int)
                    &&& id < u64::MAX
                    &&& entry@ == (EntryView {
                        id: id as int,
                        day: day@,
                        content: content@,
                        created_at: created_at as int,
                    })
                    &&& final(self)@ == old(self)@.with_entry(entry@)
                },
                Err(e) => {
                    &&& old(self)@.has_entry(id as int) || id == u64::MAX
                    &&& e == ArchiveError::StoreError
                    &&& final(self)@ == old(self)@
                },
            },
    {
        proof {
            use_type_invariant(&*self);
            use_type_invariant(&day);
            day.lemma_valid_view();
        }
        if id == u64::MAX || self.has_entry(id) {
            return Err(ArchiveError::StoreError);
        }
        let entry = ArchiveEntry::assemble(id, day, content, created_at);
        let copy = entry.clone();
        proof {
            self@.lemma_with_entry(entry@);
        }
        let pos = self.entry_position(created_at);
        self.upsert_day(day);
        let (days, mut entries, next_id) = self.take_parts();
        entries.insert(pos, entry);
        proof {
            assert(entry_views(entries@) =~= old(self)@.entries.insert(pos as int, copy@));
        }
        let next_id = if id < next_id {
            next_id
        } else {
            id + 1
        };
        *self = Store { days, entries, next_id };
        Ok(copy)
    }

    /// Makes a new entry for `day` with the text `content`, made at the time
    /// `now`, under the next free identifier, and registers the day. When no
    /// identifier is left the store is unchanged.
    pub fn add_entry(&mut self, day: Day, content: String, now: u64) -> (r: Result<
        ArchiveEntry,
        ArchiveError,
    >)
        ensures
            final(self).is_valid(),
            match r {
                Ok(entry) => {
                    &&& old(self)@.next_id < u64::MAX
                    &&& entry@ == (EntryView {
                        id: old(self)@.next_id,
                        day: day@,
                        content: content@,
                        created_at: now as int,
                    })
                    &&& final(self)@ == old(self)@.with_entry(entry@)
                },
                Err(e) => {
                    &&& old(self)@.next_id == u64::MAX
                    &&& e == ArchiveError::StoreError
                    &&& final(self)@ == old(self)@
                },
            },
    {
        proof {
            use_type_invariant(&*self);
        }
        let id = self.next_id;
        self.restore_entry(id, day, content, now)
    }

    /// Removes the entry with this identifier, and says whether there was
    /// one. Where there was none, nothing changes.
    pub fn delete_entry(&mut self, id: u64) -> (removed: bool)
        ensures
            final(self).is_valid(),
            removed == old(self)@.has_entry(id as int),
            final(self)@ == old(self)@.without_entry(id as int),
    {
        proof {
            use_type_invariant(&*self);
            self@.lemma_without_entry(id as int);
        }
        match self.entry_index(id) {
            Some(at) => {
                let (days, mut entries, next_id) = self.take_parts();
                entries.remove(at);
                proof {
                    assert(entry_views(entries@) =~= old(self)@.entries.remove(at as int));
                }
                *self = Store { days, entries, next_id };
                true
            },
            None => false,
        }
    }

    /// Removes `day` and, with `cascade`, its entries. Without `cascade` a
    /// day that has entries is not removed, and nothing changes. A day that
    /// is not registered has nothing to remove.
    pub fn delete_day(&mut self, day: Day, cascade: bool) -> (r: Result<(), ArchiveError>)
        ensures
            final(self).is_valid(),
            match r {
                Ok(_) => {
                    &&& cascade || old(self)@.entries_of(day@).len() == 0
                    &&& final(self)@ == old(self)@.without_day(day@)
                },
                Err(e) => {
                    &&& !cascade && old(self)@.entries_of(day@).len() > 0
                    &&& e == ArchiveError::DayNotEmpty
                    &&& final(self)@ == old(self)@
                },
            },
    {
        proof {
            use_type_invariant(&*self);
            self@.lemma_without_day(day@);
            self@.lemma_place_of_day(day@);
        }
        let count = self.count_entries(&day);
        if !cascade && count > 0 {
            return Err(ArchiveError::DayNotEmpty);
        }
        let pos = self.day_position(&day);
        let registered = pos < self.days.len() && self.days[pos] == day;
        proof {
            if pos < self.days.len() {
                self.days[pos as int].lemma_view_injective(day);
            }
        }
        let (mut days, mut entries, next_id) = self.take_parts();
        if registered {
            days.remove(pos);
            proof {
                assert(day_views(days@) =~= old(self)@.days.remove(pos as int));
            }
        }
        if count > 0 {
            remove_entries_of(&mut entries, &day);
        }
        *self = Store { days, entries, next_id };
        Ok(())
    }

    /// The day list: the rows of the registered days, earliest first; under a
    /// search text, the rows of the days whose canonical text holds it,
    /// letter case apart. The empty text is held by every day.
    pub fn list_days(&self, filter: Option<&str>) -> (rows: Vec<DayRecord>)
        ensures
            record_views(rows@) == self@.records(search_text(filter)),
    {
        let ghost wanted = passing(search_text(filter));
        let mut rows: Vec<DayRecord> = Vec::new();
        let mut i: usize = 0;
        proof {
            assert(self@.days.take(0).filter(wanted).map_values(self@.row_of()) =~= record_views(
                rows@,
            )) by {
                reveal(Seq::filter);
            }
        }
        while i < self.days.len()
            invariant
                i <= self.days.len(),
                wanted == passing(search_text(filter)),
                record_views(rows@) == self@.days.take(i as int).filter(wanted).map_values(
                    self@.row_of(),
                ),
            decreases self.days.len() - i,
        {
            let day = self.days[i];
            let passes = match filter {
                None => true,
                Some(text) => contains_ignoring_case(day.format_canonical().as_str(), text),
            };
            proof {
                let seen = self@.days.take(i as int);
                assert(self@.days.take(i as int + 1) =~= seen.push(day@));
                seen.lemma_filter_push(day@, wanted);
                assert(passes == wanted(day@));
            }
            if passes {
                let ghost shown = record_views(rows@);
                let count = self.count_entries(&day);
                rows.push(DayRecord::assemble(day, count));
                proof {
                    let kept = self@.days.take(i as int).filter(wanted);
                    assert(record_views(rows@) =~= shown.push(self@.record_of(day@)));
                    assert(kept.push(day@).map_values(self@.row_of()) =~= kept.map_values(
                        self@.row_of(),
                    ).push(self@.record_of(day@)));
                }
            }
            i = i + 1;
        }
        proof {
            assert(self@.days.take(i as int) =~= self@.days);
        }
        rows
    }

    /// The entries of `day`, oldest first. A day without entries and a day
    /// that is not registered both give none.
    pub fn get_entries(&self, day: Day) -> (found: Vec<ArchiveEntry>)
        ensures
            entry_views(found@) == self@.entries_of(day@),
    {
        let mut found: Vec<ArchiveEntry> = Vec::new();
        let mut i: usize = 0;
        proof {
            assert(self@.entries.take(0).filter(on_day(day@)) =~= entry_views(found@)) by {
                reveal(Seq::filter);
            }
        }
        while i < self.entries.len()
            invariant
                i <= self.entries.len(),
                entry_views(found@) == self@.entries.take(i as int).filter(on_day(day@)),
            decreases self.entries.len() - i,
        {
            let entry_day = self.entries[i].day();
            proof {
                let seen = self@.entries.take(i as int);
                assert(self@.entries.take(i as int + 1) =~= seen.push(self@.entries[i as int]));
                seen.lemma_filter_push(self@.entries[i as int], on_day(day@));
                entry_day.lemma_view_injective(day);
            }
            if entry_day == day {
                let ghost shown = entry_views(found@);
                found.push(self.entries[i].clone());
                proof {
                    assert(entry_views(found@) =~= shown.push(self@.entries[i as int]));
                }
            }
            i = i + 1;
        }
        proof {
            assert(self@.entries.take(i as int) =~= self@.entries);
        }
        found
    }
}

impl Clone for Store {
    /// A second store that holds what this one holds.
    fn clone(&self) -> (copy: Store)
        ensures
            copy@ == self@,
    {
        proof {
            use_type_invariant(self);
        }
        let mut days: Vec<Day> = Vec::new();
        let mut i: usize = 0;
        while i < self.days.len()
            invariant
                i <= self.days.len(),
                day_views(days@) == self@.days.take(i as int),
            decreases self.days.len() - i,
        {
            let ghost copied = day_views(days@);
            days.push(self.days[i]);
            assert(day_views(days@) =~= copied.push(self@.days[i as int]));
            assert(self@.days.take(i as int + 1) =~= copied.push(self@.days[i as int]));
            i = i + 1;
        }
        let mut entries: Vec<ArchiveEntry> = Vec::new();
        let mut j: usize = 0;
        while j < self.entries.len()
            invariant
                j <= self.entries.len(),
                entry_views(entries@) == self@.entries.take(j as int),
            decreases self.entries.len() - j,
        {
            let ghost copied = entry_views(entries@);
            entries.push(self.entries[j].clone());
            assert(entry_views(entries@) =~= copied.push(self@.entries[j as int]));
            assert(self@.entries.take(j as int + 1) =~= copied.push(self@.entries[j as int]));
            j = j + 1;
        }
        assert(self@.days.take(i as int) =~= self@.days);
        assert(self@.entries.take(j as int) =~= self@.entries);
        Store { days, entries, next_id: self.next_id }
    }
}

/// Removes the entries of `day` from `entries` and keeps the others in their
/// order.
fn remove_entries_of(entries: &mut Vec<ArchiveEntry>, day: &Day)
    ensures
        entry_views(final(entries)@) == entry_views(old(entries)@).filter(off_day(day@)),
{
    let ghost before = entry_views(entries@);
    let ghost mut done: int = 0;
    let mut i: usize = 0;
    proof {
        assert(before.take(0).filter(off_day(day@)) =~= entry_views(entries@).take(0)) by {
            reveal(Seq::filter);
        }
        assert(entry_views(entries@).skip(0) =~= before.skip(0));
    }
    while i < entries.len()
        invariant
            0 <= done <= before.len(),
            i <= entries.len(),
            entries.len() - i == before.len() - done,
            entry_views(entries@).take(i as int) == before.take(done).filter(off_day(day@)),
            entry_views(entries@).skip(i as int) == before.skip(done),
        decreases entries.len() - i,
    {
        let entry_day = entries[i].day();
        let ghost views = entry_views(entries@);
        proof {
            assert(views[i as int] == views.skip(i as int)[0]);
            assert(before[done] == before.skip(done)[0]);
            assert(before.take(done + 1) =~= before.take(done).push(before[done]));
            before.take(done).lemma_filter_push(before[done], off_day(day@));
            entry_day.lemma_view_injective(*day);
        }
        if entry_day == *day {
            entries.remove(i);
            proof {
                assert(entry_views(entries@).take(i as int) =~= views.take(i as int));
                assert(entry_views(entries@).skip(i as int) =~= views.skip(i as int).skip(1));
                assert(before.skip(done).skip(1) =~= before.skip(done + 1));
            }
        } else {
            proof {
                assert(views.take(i as int + 1) =~= views.take(i as int).push(views[i as int]));
                assert(views.skip(i as int + 1) =~= views.skip(i as int).skip(1));
                assert(before.skip(done).skip(1) =~= before.skip(done + 1));
            }
            i = i + 1;
        }
        proof {
            done = done + 1;
        }
    }
    proof {
        assert(entry_views(entries@).take(i as int) =~= entry_views(entries@));
        assert(before.take(done) =~= before);
    }
}

} // verus!
