//! The values that the store hands out: entries and rows of the day list.

use vstd::prelude::*;
use vstd::string::*;
use crate::day::Day;
use crate::model::{EntryView, RecordView};

verus! {

/// One note of the archive, attached to a day.
#[derive(Debug)]
pub struct ArchiveEntry {
    id: u64,
    day: Day,
    content: String,
    created_at: u64,
}

impl View for ArchiveEntry {
    type V = EntryView;

    closed spec fn view(&self) -> EntryView {
        EntryView {
            id: self.id as int,
            day: self.day@,
            content: self.content@,
            created_at: self.created_at as int,
        }
    }
}

impl ArchiveEntry {
    /// Puts an entry together from its parts.
    pub(crate) fn assemble(id: u64, day: Day, content: String, created_at: u64) -> (entry:
        ArchiveEntry)
        ensures
            entry@ == (EntryView {
                id: id as int,
                day: day@,
                content: content@,
                created_at: created_at as int,
            }),
    {
        ArchiveEntry { id, day, content, created_at }
    }

    /// The identifier that the store gave the entry.
    pub fn id(&self) -> (id: u64)
        ensures
            id as int == self@.id,
    {
        self.id
    }

    /// The day that the entry belongs to.
    pub fn day(&self) -> (day: Day)
        ensures
            day@ == self@.day,
    {
        self.day
    }

    /// The text of the entry.
    pub fn content(&self) -> (content: &str)
        ensures
            content@ == self@.content,
    {
        self.content.as_str()
    }

    /// The time at which the entry was made.
    pub fn created_at(&self) -> (created_at: u64)
        ensures
            created_at as int == self@.created_at,
    {
        self.created_at
    }
}

impl Clone for ArchiveEntry {
    fn clone(&self) -> (copy: ArchiveEntry)
        ensures
            copy@ == self@,
    {
        ArchiveEntry {
            id: self.id,
            day: self.day,
            content: self.content.clone(),
            created_at: self.created_at,
        }
    }
}

/// One row of the day list: a registered day and the number of its entries.
#[derive(Clone, Copy, Debug, PartialEq, Eq, Structural)]
pub struct DayRecord {
    day: Day,
    entry_count: usize,
}

impl View for DayRecord {
    type V = RecordView;

    closed spec fn view(&self) -> RecordView {
        RecordView { day: self.day@, entry_count: self.entry_count as int }
    }
}

impl DayRecord {
    /// Puts a row together from its parts.
    pub(crate) fn assemble(day: Day, entry_count: usize) -> (record: DayRecord)
        ensures
            record@ == (RecordView { day: day@, entry_count: entry_count as int }),
    {
        DayRecord { day, entry_count }
    }

    /// The day of the row.
    pub fn day(&self) -> (day: Day)
        ensures
            day@ == self@.day,
    {
        self.day
    }

    /// The number of entries that the day has.
    pub fn entry_count(&self) -> (count: usize)
        ensures
            count as int == self@.entry_count,
    {
        self.entry_count
    }
}

} // verus!
