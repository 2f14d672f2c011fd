//! The data of an event day: the admin-defined sequence of timeplan rows, the
//! category catalog and the acts, together with the annotated projection that
//! the prediction produces.
//!
//! Instants are seconds since the Unix epoch, durations are seconds, and an
//! identifier is the 128-bit value of a UUID.

use vstd::prelude::*;

verus! {

/// The characters of an optional text.
pub open spec fn text(o: Option<String>) -> Option<Seq<char>> {
    match o {
        Some(s) => Some(s@),
        None => None,
    }
}

/// Whether an optional reference to a category names the category `name`.
pub fn refers_to(category: &Option<String>, name: &String) -> (r: bool)
    ensures
        r == (text(*category) == Some(name@)),
{
    match category {
        Some(c) => *c == *name,
        None => false,
    }
}

/// One row of the sequence: a reference to a category, or a custom block made
/// of a label and a fixed duration. Rows are gone through in ascending order
/// of `id`; a schedule lists them so (`ScheduleView::in_sequence`).
#[derive(Clone, Debug, PartialEq, Eq)]
pub struct TimeplanRow {
    pub id: i64,
    pub earliest_start_time: Option<i64>,
    pub duration_seconds: Option<i64>,
    pub label: Option<String>,
    pub category: Option<String>,
    pub started_at: Option<i64>,
    pub ended_at: Option<i64>,
}

pub struct TimeplanRowView {
    pub id: i64,
    pub earliest_start_time: Option<i64>,
    pub duration_seconds: Option<i64>,
    pub label: Option<Seq<char>>,
    pub category: Option<Seq<char>>,
    pub started_at: Option<i64>,
    pub ended_at: Option<i64>,
}

impl View for TimeplanRow {
    type V = TimeplanRowView;

    open spec fn view(&self) -> TimeplanRowView {
        TimeplanRowView {
            id: self.id,
            earliest_start_time: self.earliest_start_time,
            duration_seconds: self.duration_seconds,
            label: text(self.label),
            category: text(self.category),
            started_at: self.started_at,
            ended_at: self.ended_at,
        }
    }
}

/// A competition category: its name is the key under which timeplan rows and
/// acts refer to it.
#[derive(Clone, Debug, PartialEq, Eq)]
pub struct Category {
    pub name: String,
    pub description: Option<String>,
    pub from_birthday: String,
    pub to_birthday: String,
    pub is_pair: bool,
    pub is_sonderpokal: bool,
    pub is_single_male: bool,
    pub order: Option<i64>,
    pub einfahrzeit_seconds: i64,
    pub act_duration_seconds: i64,
    pub judge_duration_seconds: i64,
}

pub struct CategoryView {
    pub name: Seq<char>,
    pub description: Option<Seq<char>>,
    pub from_birthday: Seq<char>,
    pub to_birthday: Seq<char>,
    pub is_pair: bool,
    pub is_sonderpokal: bool,
    pub is_single_male: bool,
    pub order: Option<i64>,
    pub einfahrzeit_seconds: i64,
    pub act_duration_seconds: i64,
    pub judge_duration_seconds: i64,
}

impl View for Category {
    type V = CategoryView;

    open spec fn view(&self) -> CategoryView {
        CategoryView {
            name: self.name@,
            description: text(self.description),
            from_birthday: self.from_birthday@,
            to_birthday: self.to_birthday@,
            is_pair: self.is_pair,
            is_sonderpokal: self.is_sonderpokal,
            is_single_male: self.is_single_male,
            order: self.order,
            einfahrzeit_seconds: self.einfahrzeit_seconds,
            act_duration_seconds: self.act_duration_seconds,
            judge_duration_seconds: self.judge_duration_seconds,
        }
    }
}

/// An act as the timeplan sees it: the category it competes in, its position
/// and its live timestamps. Within a category the acts are gone through in
/// ascending order of position; a schedule lists them so
/// (`ScheduleView::in_sequence`).
#[derive(Clone, Debug, PartialEq, Eq)]
pub struct ScheduledAct {
    pub id: u128,
    pub name: String,
    pub category: Option<String>,
    pub order: Option<i64>,
    pub started_at: Option<i64>,
    pub ended_at: Option<i64>,
}

pub struct ScheduledActView {
    pub id: u128,
    pub name: Seq<char>,
    pub category: Option<Seq<char>>,
    pub order: Option<i64>,
    pub started_at: Option<i64>,
    pub ended_at: Option<i64>,
}

impl View for ScheduledAct {
    type V = ScheduledActView;

    open spec fn view(&self) -> ScheduledActView {
        ScheduledActView {
            id: self.id,
            name: self.name@,
            category: text(self.category),
            order: self.order,
            started_at: self.started_at,
            ended_at: self.ended_at,
        }
    }
}

/// The state of an event day.
#[derive(Clone, Debug, PartialEq, Eq)]
pub struct Schedule {
    pub entries: Vec<TimeplanRow>,
    pub categories: Vec<Category>,
    pub acts: Vec<ScheduledAct>,
}

pub struct ScheduleView {
    pub entries: Seq<TimeplanRowView>,
    pub categories: Seq<CategoryView>,
    pub acts: Seq<ScheduledActView>,
}

impl View for Schedule {
    type V = ScheduleView;

    open spec fn view(&self) -> ScheduleView {
        ScheduleView {
            entries: Seq::new(self.entries@.len(), |i: int| self.entries@[i]@),
            categories: Seq::new(self.categories@.len(), |i: int| self.categories@[i]@),
            acts: Seq::new(self.acts@.len(), |i: int| self.acts@[i]@),
        }
    }
}

/// Whether the position `a` comes no later than the position `b`. An act
/// without a position comes before every act that has one.
pub open spec fn position_le(a: Option<i64>, b: Option<i64>) -> bool {
    match (a, b) {
        (None, _) => true,
        (Some(_), None) => false,
        (Some(x), Some(y)) => x <= y,
    }
}

impl ScheduleView {
    /// The rows stand in ascending order of their identifiers.
    pub open spec fn rows_ascending(self) -> bool {
        forall|i: int, j: int|
            0 <= i < j < self.entries.len() ==> (#[trigger] self.entries[i]).id < (
            #[trigger] self.entries[j]).id
    }

    /// The acts of each category stand in ascending order of their positions.
    pub open spec fn acts_ascending(self) -> bool {
        forall|k: int, m: int|
            0 <= k < m < self.acts.len() && (#[trigger] self.acts[k]).category is Some
                && self.acts[k].category == (#[trigger] self.acts[m]).category ==> position_le(
                self.acts[k].order,
                self.acts[m].order,
            )
    }

    /// The schedule lists its rows and the acts of each category in the order
    /// in which they are to be gone through.
    pub open spec fn in_sequence(self) -> bool {
        self.rows_ascending() && self.acts_ascending()
    }
}

fn comes_no_later(a: Option<i64>, b: Option<i64>) -> (r: bool)
    ensures
        r == position_le(a, b),
{
    match (a, b) {
        (None, _) => true,
        (Some(_), None) => false,
        (Some(x), Some(y)) => x <= y,
    }
}

fn same_category(a: &Option<String>, b: &Option<String>) -> (r: bool)
    ensures
        r == (text(*a) is Some && text(*a) == text(*b)),
{
    match (a, b) {
        (Some(x), Some(y)) => *x == *y,
        _ => false,
    }
}

impl Schedule {
    /// Whether the schedule lists its rows in ascending order of their
    /// identifiers and the acts of each category in ascending order of their
    /// positions.
    pub fn is_in_sequence(&self) -> (r: bool)
        ensures
            r == self@.in_sequence(),
    {
        let n = self.entries.len();
        let mut j: usize = 0;
        while j < n
            invariant
                j <= n,
                n == self.entries@.len(),
                forall|a: int, b: int|
                    0 <= a < b < j ==> (#[trigger] self@.entries[a]).id < (
                    #[trigger] self@.entries[b]).id,
            decreases n - j,
        {
            let mut i: usize = 0;
            while i < j
                invariant
                    i <= j < n,
                    n == self.entries@.len(),
                    forall|a: int| 0 <= a < i ==> (#[trigger] self@.entries[a]).id < self@.entries[j as int].id,
                decreases j - i,
            {
                if self.entries[i].id >= self.entries[j].id {
                    assert(!(self@.entries[i as int].id < self@.entries[j as int].id));
                    return false;
                }
                i = i + 1;
            }
            j = j + 1;
        }
        let n = self.acts.len();
        let mut m: usize = 0;
        while m < n
            invariant
                m <= n,
                n == self.acts@.len(),
                self@.rows_ascending(),
                forall|a: int, b: int|
                    0 <= a < b < m && (#[trigger] self@.acts[a]).category is Some
                        && self@.acts[a].category == (#[trigger] self@.acts[b]).category
                        ==> position_le(self@.acts[a].order, self@.acts[b].order),
            decreases n - m,
        {
            let mut k: usize = 0;
            while k < m
                invariant
                    k <= m < n,
                    n == self.acts@.len(),
                    forall|a: int|
                        0 <= a < k && (#[trigger] self@.acts[a]).category is Some
                            && self@.acts[a].category == self@.acts[m as int].category
                            ==> position_le(self@.acts[a].order, self@.acts[m as int].order),
                decreases m - k,
            {
                if same_category(&self.acts[k].category, &self.acts[m].category) && !comes_no_later(
                    self.acts[k].order,
                    self.acts[m].order,
                ) {
                    assert(self@.acts[k as int].category is Some && self@.acts[k as int].category
                        == self@.acts[m as int].category && !position_le(
                        self@.acts[k as int].order,
                        self@.acts[m as int].order,
                    ));
                    return false;
                }
                k = k + 1;
            }
            m = m + 1;
        }
        true
    }
}

/// Where an entry or an act stands, read off its two timestamps.
#[derive(Clone, Copy, Debug, PartialEq, Eq, Structural)]
pub enum TimeplanItemStatus {
    Planned,
    Started,
    Ended,
}

/// The status that a pair of timestamps stands for; an end without a start
/// stands for none.
pub open spec fn status_of(started_at: Option<i64>, ended_at: Option<i64>) -> Option<
    TimeplanItemStatus,
> {
    match (started_at, ended_at) {
        (Some(_), Some(_)) => Some(TimeplanItemStatus::Ended),
        (Some(_), None) => Some(TimeplanItemStatus::Started),
        (None, None) => Some(TimeplanItemStatus::Planned),
        (None, Some(_)) => None,
    }
}

/// Computes `status_of`.
pub fn item_status(started_at: Option<i64>, ended_at: Option<i64>) -> (res: Option<
    TimeplanItemStatus,
>)
    ensures
        res == status_of(started_at, ended_at),
{
    match (started_at, ended_at) {
        (Some(_), Some(_)) => Some(TimeplanItemStatus::Ended),
        (Some(_), None) => Some(TimeplanItemStatus::Started),
        (None, None) => Some(TimeplanItemStatus::Planned),
        (None, Some(_)) => None,
    }
}

/// An act with its planned and predicted times.
#[derive(Clone, Debug, PartialEq, Eq)]
pub struct TimeplanAct {
    pub status: TimeplanItemStatus,
    pub id: u128,
    pub name: String,
    pub started_at: Option<i64>,
    pub ended_at: Option<i64>,
    pub predicted_start: i64,
    pub predicted_end: i64,
    pub planned_start: i64,
    pub planned_end: i64,
}

pub struct TimeplanActView {
    pub status: TimeplanItemStatus,
    pub id: u128,
    pub name: Seq<char>,
    pub started_at: Option<i64>,
    pub ended_at: Option<i64>,
    pub predicted_start: i64,
    pub predicted_end: i64,
    pub planned_start: i64,
    pub planned_end: i64,
}

impl View for TimeplanAct {
    type V = TimeplanActView;

    open spec fn view(&self) -> TimeplanActView {
        TimeplanActView {
            status: self.status,
            id: self.id,
            name: self.name@,
            started_at: self.started_at,
            ended_at: self.ended_at,
            predicted_start: self.predicted_start,
            predicted_end: self.predicted_end,
            planned_start: self.planned_start,
            planned_end: self.planned_end,
        }
    }
}

/// What a timeplan item is: a category pass with its acts, or a custom block.
#[derive(Clone, Debug, PartialEq, Eq)]
pub enum TimeplanEntry {
    Category {
        name: String,
        description: String,
        duration_seconds: i64,
        order: i64,
        einfahrzeit_seconds: i64,
        act_duration_seconds: i64,
        judge_duration_seconds: i64,
        acts: Vec<TimeplanAct>,
    },
    Custom { label: String, duration_seconds: i64 },
}

pub enum TimeplanEntryView {
    Category {
        name: Seq<char>,
        description: Seq<char>,
        duration_seconds: i64,
        order: i64,
        einfahrzeit_seconds: i64,
        act_duration_seconds: i64,
        judge_duration_seconds: i64,
        acts: Seq<TimeplanActView>,
    },
    Custom { label: Seq<char>, duration_seconds: i64 },
}

impl View for TimeplanEntry {
    type V = TimeplanEntryView;

    open spec fn view(&self) -> TimeplanEntryView {
        match self {
            TimeplanEntry::Category {
                name,
                description,
                duration_seconds,
                order,
                einfahrzeit_seconds,
                act_duration_seconds,
                judge_duration_seconds,
                acts,
            } => TimeplanEntryView::Category {
                name: name@,
                description: description@,
                duration_seconds: *duration_seconds,
                order: *order,
                einfahrzeit_seconds: *einfahrzeit_seconds,
                act_duration_seconds: *act_duration_seconds,
                judge_duration_seconds: *judge_duration_seconds,
                acts: Seq::new(acts@.len(), |i: int| acts@[i]@),
            },
            TimeplanEntry::Custom { label, duration_seconds } => TimeplanEntryView::Custom {
                label: label@,
                duration_seconds: *duration_seconds,
            },
        }
    }
}

impl TimeplanEntryView {
    /// The planned length of the item in seconds.
    pub open spec fn duration(self) -> i64 {
        match self {
            TimeplanEntryView::Category { duration_seconds, .. } => duration_seconds,
            TimeplanEntryView::Custom { duration_seconds, .. } => duration_seconds,
        }
    }
}

impl TimeplanEntry {
    /// The planned length of the item in seconds.
    pub fn duration(&self) -> (res: i64)
        ensures
            res == self@.duration(),
    {
        match self {
            TimeplanEntry::Category { duration_seconds, .. } => *duration_seconds,
            TimeplanEntry::Custom { duration_seconds, .. } => *duration_seconds,
        }
    }
}

/// One row of the projection.
#[derive(Clone, Debug, PartialEq, Eq)]
pub struct TimeplanItem {
    pub status: TimeplanItemStatus,
    pub predicted_start: i64,
    pub predicted_end: i64,
    pub planned_start: i64,
    pub planned_end: i64,
    pub planned_duration: i64,
    pub started_at: Option<i64>,
    pub ended_at: Option<i64>,
    pub timeplan_entry: TimeplanEntry,
}

pub struct TimeplanItemView {
    pub status: TimeplanItemStatus,
    pub predicted_start: i64,
    pub predicted_end: i64,
    pub planned_start: i64,
    pub planned_end: i64,
    pub planned_duration: i64,
    pub started_at: Option<i64>,
    pub ended_at: Option<i64>,
    pub timeplan_entry: TimeplanEntryView,
}

impl View for TimeplanItem {
    type V = TimeplanItemView;

    open spec fn view(&self) -> TimeplanItemView {
        TimeplanItemView {
            status: self.status,
            predicted_start: self.predicted_start,
            predicted_end: self.predicted_end,
            planned_start: self.planned_start,
            planned_end: self.planned_end,
            planned_duration: self.planned_duration,
            started_at: self.started_at,
            ended_at: self.ended_at,
            timeplan_entry: self.timeplan_entry@,
        }
    }
}

/// The annotated projection: every item with its times, and the drift of the
/// live event against the plan in seconds.
#[derive(Clone, Debug, PartialEq, Eq)]
pub struct Timeplan {
    pub offset: i64,
    pub items: Vec<TimeplanItem>,
}

pub struct TimeplanView {
    pub offset: i64,
    pub items: Seq<TimeplanItemView>,
}

impl View for Timeplan {
    type V = TimeplanView;

    open spec fn view(&self) -> TimeplanView {
        TimeplanView {
            offset: self.offset,
            items: Seq::new(self.items@.len(), |i: int| self.items@[i]@),
        }
    }
}

} // verus!
