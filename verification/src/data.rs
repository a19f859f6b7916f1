//! The day book: entries collected under the days on which they were
//! made. An entry is found by the id that the user typed.

use vstd::prelude::*;
use crate::clock::{is_utc_day_label, timestamp, utc_day_label};
use crate::lookup::{first_index_of, is_first_at, lemma_absent, lemma_first_index_of, lemma_found};
use crate::task::opt_int;

verus! {

/// The mathematical value of an [`Entry`].
pub ghost struct EntryModel {
    pub id: nat,
    pub description: Seq<char>,
    /// The instant of the last start, if the entry was started.
    pub started_at: Option<int>,
}

impl EntryModel {
    /// An entry that was never started.
    pub open spec fn fresh(id: nat, description: Seq<char>) -> EntryModel {
        EntryModel { id, description, started_at: None }
    }

    /// The entry after a start at `now`.
    pub open spec fn started(self, now: int) -> EntryModel {
        EntryModel { started_at: Some(now), ..self }
    }
}

/// One thing to work on, as the user described it.
#[derive(Debug)]
pub struct Entry {
    id: usize,
    description: String,
    started_date: Option<i64>,
}

impl View for Entry {
    type V = EntryModel;

    closed spec fn view(&self) -> EntryModel {
        EntryModel {
            id: self.id as nat,
            description: self.description@,
            started_at: opt_int(self.started_date),
        }
    }
}

impl Entry {
    /// An entry that was never started.
    pub fn new(id: usize, desc: String) -> (entry: Entry)
        ensures
            entry@ == EntryModel::fresh(id as nat, desc@),
    {
        Entry { id, description: desc, started_date: None }
    }

    /// Starts the entry at `now`.
    pub fn start_at(&mut self, now: i64)
        ensures
            final(self)@ == old(self)@.started(now as int),
    {
        self.started_date = Some(now);
    }

    /// Starts the entry at the instant that the system clock shows.
    pub fn start(&mut self)
        ensures
            exists|now: i64| final(self)@ == #[trigger] old(self)@.started(now as int),
    {
        let now = timestamp();
        self.start_at(now);
    }

    pub fn id(&self) -> (id: usize)
        ensures
            id == self@.id,
    {
        self.id
    }

    pub fn description(&self) -> (description: &String)
        ensures
            description@ == self@.description,
    {
        &self.description
    }

    /// The instant of the last start, if the entry was started.
    pub fn started_at(&self) -> (started: Option<i64>)
        ensures
            opt_int(started) == self@.started_at,
    {
        self.started_date
    }
}

/// The number that a sequence of decimal digits writes.
pub open spec fn digits_value(digits: Seq<char>) -> nat
    decreases digits.len(),
{
    if digits.len() == 0 {
        0
    } else {
        digits_value(digits.drop_last()) * 10 + ((digits.last() as int) - ('0' as int)) as nat
    }
}

/// At least one character, each of them a decimal digit.
pub open spec fn is_digits(text: Seq<char>) -> bool {
    &&& text.len() > 0
    &&& forall|i: int| 0 <= i < text.len() ==> '0' <= #[trigger] text[i] <= '9'
}

/// The id that a text writes: decimal digits, with or without a plus sign
/// in front, whose number fits the machine. Every other text, the empty
/// one and one with blanks included, writes none.
pub open spec fn written_id(text: Seq<char>) -> Option<usize> {
    let digits = if text.len() > 0 && text[0] == '+' {
        text.drop_first()
    } else {
        text
    };
    if is_digits(digits) && digits_value(digits) <= usize::MAX {
        Some(digits_value(digits) as usize)
    } else {
        None
    }
}

/// Reads an id from a text: std's `str::parse` for `usize`, which takes
/// an optional plus sign followed by decimal digits and refuses the
/// empty text, every other character and a number beyond `usize::MAX`.
#[verifier::external_body]
fn parse_id(text: &str) -> (id: Option<usize>)
    ensures
        id == written_id(text@),
{
    text.parse::<usize>().ok()
}

/// The mathematical values of a vector of entries.
pub open spec fn entry_models(entries: Seq<Entry>) -> Seq<EntryModel> {
    Seq::new(entries.len(), |i: int| entries[i]@)
}

/// The mathematical value of a [`Day`].
pub ghost struct DayModel {
    /// The label of the day.
    pub val: Seq<char>,
    /// The entries in the order in which they were added.
    pub entries: Seq<EntryModel>,
}

impl DayModel {
    /// A day without entries.
    pub open spec fn fresh(val: Seq<char>) -> DayModel {
        DayModel { val, entries: Seq::empty() }
    }

    /// The ids of the entries, in the order of the entries.
    pub open spec fn entry_ids(self) -> Seq<nat> {
        Seq::new(self.entries.len(), |i: int| self.entries[i].id)
    }

    /// The position of the first entry whose id the text `id` writes.
    pub open spec fn find(self, id: Seq<char>) -> Option<int> {
        match written_id(id) {
            Some(n) => first_index_of(self.entry_ids(), n as nat),
            None => None,
        }
    }
}

/// The entries of one day.
#[derive(Debug)]
pub struct Day {
    val: String,
    entries: Vec<Entry>,
}

impl View for Day {
    type V = DayModel;

    closed spec fn view(&self) -> DayModel {
        DayModel { val: self.val@, entries: entry_models(self.entries@) }
    }
}

impl Day {
    /// A day without entries, labelled with the current day in UTC.
    pub fn new() -> (day: Day)
        ensures
            day@ == DayModel::fresh(day@.val),
            is_utc_day_label(day@.val),
    {
        Day::labelled(utc_day_label())
    }

    /// A day without entries with the label `val`.
    pub fn labelled(val: String) -> (day: Day)
        ensures
            day@ == DayModel::fresh(val@),
    {
        let day = Day { val, entries: Vec::new() };
        assert(day@.entries =~= Seq::empty());
        day
    }

    pub fn add_entry(&mut self, entry: Entry)
        ensures
            final(self)@ == (DayModel {
                entries: old(self)@.entries.push(entry@),
                ..old(self)@
            }),
    {
        self.entries.push(entry);
        assert(self@.entries =~= old(self)@.entries.push(entry@));
    }

    /// The label of the day.
    pub fn val(&self) -> (val: &String)
        ensures
            val@ == self@.val,
    {
        &self.val
    }

    pub fn entries(&self) -> (entries: &Vec<Entry>)
        ensures
            entry_models(entries@) == self@.entries,
    {
        &self.entries
    }

    /// The entries, to be changed in place: what the caller leaves in the
    /// vector are the entries of the day afterwards.
    pub fn entries_mut(&mut self) -> (entries: &mut Vec<Entry>)
        ensures
            entry_models(entries@) == old(self)@.entries,
            final(self)@ == (DayModel {
                entries: entry_models(final(entries)@),
                ..old(self)@
            }),
    {
        &mut self.entries
    }

    /// The position of the first entry whose id the text `id` writes.
    pub fn position_of(&self, id: &str) -> (found: Option<usize>)
        ensures
            crate::group::opt_index(found) == self@.find(id@),
    {
        let wanted = match parse_id(id) {
            Some(n) => n,
            None => {
                return None;
            },
        };
        let mut i: usize = 0;
        while i < self.entries.len()
            invariant
                i <= self.entries.len(),
                written_id(id@) == Some(wanted),
                forall|j: int| 0 <= j < i ==> self@.entry_ids()[j] != wanted as nat,
            decreases self.entries.len() - i,
        {
            if self.entries[i].id() == wanted {
                proof {
                    assert(is_first_at(self@.entry_ids(), wanted as nat, i as int));
                    lemma_found(self@.entry_ids(), wanted as nat, i as int);
                }
                return Some(i);
            }
            i += 1;
        }
        proof {
            lemma_absent(self@.entry_ids(), wanted as nat);
        }
        None
    }

    /// The first entry whose id the text `id` writes, to be changed in
    /// place; `None` where the text writes no id or no entry has it.
    pub fn find_by_id(&mut self, id: &str) -> (found: Option<&mut Entry>)
        ensures
            match old(self)@.find(id@) {
                Some(i) => found is Some && (*found.unwrap())@ == old(self)@.entries[i]
                    && final(self)@ == (DayModel {
                    entries: old(self)@.entries.update(i, (*final(found.unwrap()))@),
                    ..old(self)@
                }),
                None => found is None && final(self)@ == old(self)@,
            },
    {
        match self.position_of(id) {
            Some(i) => {
                proof {
                    lemma_first_index_of(self@.entry_ids(), written_id(id@).unwrap() as nat);
                }
                let ghost before = self@;
                let entry = &mut self.entries[i];
                proof {
                    assert(entry_models(after_borrow(self.entries)@) =~= before.entries.update(
                        i as int,
                        (*final(entry))@,
                    ));
                }
                Some(entry)
            },
            None => None,
        }
    }
}

/// The mathematical values of a vector of days.
pub open spec fn day_models(days: Seq<Day>) -> Seq<DayModel> {
    Seq::new(days.len(), |i: int| days[i]@)
}

/// The mathematical value of a [`Root`].
pub ghost struct RootModel {
    /// The id that the next new entry gets.
    pub next_id: nat,
    /// The days in the order in which they were added.
    pub days: Seq<DayModel>,
}

impl RootModel {
    /// A day book without days, whose first entry will get the id 1.
    pub open spec fn fresh() -> RootModel {
        RootModel { next_id: 1, days: Seq::empty() }
    }

    /// The labels of the days, in the order of the days.
    pub open spec fn labels(self) -> Seq<Seq<char>> {
        Seq::new(self.days.len(), |i: int| self.days[i].val)
    }

    /// The position of the first day with the label `label`.
    pub open spec fn find(self, label: Seq<char>) -> Option<int> {
        first_index_of(self.labels(), label)
    }
}

/// The day book: all days, and the counter of the ids of their entries.
#[derive(Debug)]
pub struct Root {
    next_id: usize,
    days: Vec<Day>,
}

impl View for Root {
    type V = RootModel;

    closed spec fn view(&self) -> RootModel {
        RootModel { next_id: self.next_id as nat, days: day_models(self.days@) }
    }
}

impl Root {
    /// A day book without days.
    pub fn new() -> (root: Root)
        ensures
            root@ == RootModel::fresh(),
    {
        let root = Root { next_id: 1, days: Vec::new() };
        assert(root@.days =~= Seq::empty());
        root
    }

    /// Whether the counter of ids can advance.
    pub fn has_free_id(&self) -> (free: bool)
        ensures
            free == (self@.next_id < usize::MAX),
    {
        self.next_id < usize::MAX
    }

    /// Makes an entry described by `desc` under the next free id. The
    /// entry belongs to no day yet.
    pub fn create_entry(&mut self, desc: String) -> (entry: Entry)
        requires
            old(self)@.next_id < usize::MAX,
        ensures
            entry@ == EntryModel::fresh(old(self)@.next_id, desc@),
            final(self)@ == (RootModel { next_id: old(self)@.next_id + 1, ..old(self)@ }),
    {
        let new_entry = Entry::new(self.next_id, desc);
        self.next_id += 1;
        new_entry
    }

    /// The position of the first day with the label `label`.
    pub fn position_of(&self, label: &String) -> (found: Option<usize>)
        ensures
            crate::group::opt_index(found) == self@.find(label@),
    {
        let mut i: usize = 0;
        while i < self.days.len()
            invariant
                i <= self.days.len(),
                forall|j: int| 0 <= j < i ==> self@.labels()[j] != label@,
            decreases self.days.len() - i,
        {
            if *self.days[i].val() == *label {
                proof {
                    assert(is_first_at(self@.labels(), label@, i as int));
                    lemma_found(self@.labels(), label@, i as int);
                }
                return Some(i);
            }
            i += 1;
        }
        proof {
            lemma_absent(self@.labels(), label@);
        }
        None
    }

    /// The first day with the label `label`, to be changed in place.
    pub fn day_labelled(&mut self, label: &String) -> (found: Option<&mut Day>)
        ensures
            match old(self)@.find(label@) {
                Some(i) => found is Some && (*found.unwrap())@ == old(self)@.days[i]
                    && final(self)@ == (RootModel {
                    days: old(self)@.days.update(i, (*final(found.unwrap()))@),
                    ..old(self)@
                }),
                None => found is None && final(self)@ == old(self)@,
            },
    {
        match self.position_of(label) {
            Some(i) => {
                proof {
                    lemma_first_index_of(self@.labels(), label@);
                }
                let ghost before = self@;
                let day = &mut self.days[i];
                proof {
                    assert(day_models(after_borrow(self.days)@) =~= before.days.update(
                        i as int,
                        (*final(day))@,
                    ));
                }
                Some(day)
            },
            None => None,
        }
    }

    /// The day of today as the system clock labels it, to be changed in
    /// place: [`Root::day_labelled`] with that label.
    pub fn today(&mut self) -> (found: Option<&mut Day>)
        ensures
            exists|label: Seq<char>|
                match #[trigger] old(self)@.find(label) {
                    Some(i) => found is Some && (*found.unwrap())@ == old(self)@.days[i]
                        && final(self)@ == (RootModel {
                        days: old(self)@.days.update(i, (*final(found.unwrap()))@),
                        ..old(self)@
                    }),
                    None => found is None && final(self)@ == old(self)@,
                },
    {
        let today_string = utc_day_label();
        self.day_labelled(&today_string)
    }

    pub fn add_day(&mut self, day: Day)
        ensures
            final(self)@ == (RootModel { days: old(self)@.days.push(day@), ..old(self)@ }),
    {
        self.days.push(day);
        assert(self@.days =~= old(self)@.days.push(day@));
    }

    /// The id that the next new entry gets.
    pub fn next_id(&self) -> (next: usize)
        ensures
            next == self@.next_id,
    {
        self.next_id
    }

    pub fn days(&self) -> (days: &Vec<Day>)
        ensures
            day_models(days@) == self@.days,
    {
        &self.days
    }
}

} // verus!
