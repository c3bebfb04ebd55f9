//! From what the store gives to what is shown: the days of a list of texts,
//! the labels of the day list, the heading and the texts of a day's entries.

use vstd::prelude::*;
use vstd::string::*;
use crate::day::{display_text, parse_text, Day};
use crate::entry::{ArchiveEntry, DayRecord};
use crate::model::Date;
use crate::store::{day_views, entry_views, record_views};

verus! {

/// The texts that write a day.
pub open spec fn writes_day() -> spec_fn(Seq<char>) -> bool {
    |text: Seq<char>| parse_text(text) is Ok
}

/// The day that a text writes.
pub open spec fn day_written() -> spec_fn(Seq<char>) -> Date {
    |text: Seq<char>| parse_text(text)->Ok_0
}

/// The days that a list of texts writes, in the order of the texts; a text
/// that writes none is passed over.
pub open spec fn days_written(texts: Seq<Seq<char>>) -> Seq<Date> {
    texts.filter(writes_day()).map_values(day_written())
}

/// The texts of a list of string slices.
pub open spec fn text_views(texts: Seq<&str>) -> Seq<Seq<char>> {
    Seq::new(texts.len(), |i: int| texts[i]@)
}

/// The heading over the entries of a day.
pub open spec fn heading_text(day: Date) -> Seq<char> {
    "Entries for: "@ + display_text(day)
}

/// Reads the days of a list of texts, and passes over the texts that write
/// none.
pub fn parse_days(texts: &Vec<&str>) -> (days: Vec<Day>)
    ensures
        day_views(days@) == days_written(text_views(texts@)),
{
    let ghost all = text_views(texts@);
    let mut days: Vec<Day> = Vec::new();
    let mut i: usize = 0;
    proof {
        assert(all.take(0).filter(writes_day()).map_values(day_written()) =~= day_views(days@)) by {
            reveal(Seq::filter);
        }
    }
    while i < texts.len()
        invariant
            i <= texts.len(),
            all == text_views(texts@),
            day_views(days@) == days_written(all.take(i as int)),
        decreases texts.len() - i,
    {
        proof {
            let seen = all.take(i as int);
            assert(all.take(i as int + 1) =~= seen.push(all[i as int]));
            seen.lemma_filter_push(all[i as int], writes_day());
        }
        match Day::from_string(texts[i]) {
            Ok(day) => {
                let ghost shown = day_views(days@);
                days.push(day);
                proof {
                    let kept = all.take(i as int).filter(writes_day());
                    assert(day_views(days@) =~= shown.push(day@));
                    assert(kept.push(all[i as int]).map_values(day_written()) =~= kept.map_values(
                        day_written(),
                    ).push(day@));
                }
            },
            Err(_) => {},
        }
        i = i + 1;
    }
    proof {
        assert(all.take(i as int) =~= all);
    }
    days
}

/// The labels of the day list: the display text of each row's day, in the
/// order of the rows.
pub fn day_labels(rows: &Vec<DayRecord>) -> (labels: Vec<String>)
    ensures
        labels@.len() == rows@.len(),
        forall|i: int|
            0 <= i < rows@.len() ==> (#[trigger] labels@[i])@ == display_text(
                record_views(rows@)[i].day,
            ),
{
    let mut labels: Vec<String> = Vec::new();
    let mut i: usize = 0;
    while i < rows.len()
        invariant
            i <= rows.len(),
            labels@.len() == i,
            forall|j: int|
                0 <= j < i ==> (#[trigger] labels@[j])@ == display_text(record_views(rows@)[j].day),
        decreases rows.len() - i,
    {
        labels.push(rows[i].day().format_display());
        i = i + 1;
    }
    labels
}

/// The heading over the entries of `day`.
pub fn entries_heading(day: &Day) -> (heading: String)
    ensures
        heading@ == heading_text(day@),
{
    let mut heading = String::from_str("Entries for: ");
    heading.append(day.format_display().as_str());
    heading
}

/// The texts of a day's entries, in the order of the entries.
pub fn entry_texts(entries: &Vec<ArchiveEntry>) -> (texts: Vec<String>)
    ensures
        texts@.len() == entries@.len(),
        forall|i: int|
            0 <= i < entries@.len() ==> (#[trigger] texts@[i])@ == entry_views(entries@)[i].content,
{
    let mut texts: Vec<String> = Vec::new();
    let mut i: usize = 0;
    while i < entries.len()
        invariant
            i <= entries.len(),
            texts@.len() == i,
            forall|j: int|
                0 <= j < i ==> (#[trigger] texts@[j])@ == entry_views(entries@)[j].content,
        decreases entries.len() - i,
    {
        texts.push(String::from_str(entries[i].content()));
        i = i + 1;
    }
    texts
}

} // verus!
