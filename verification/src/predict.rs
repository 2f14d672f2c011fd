//! Timeplan prediction: the planned schedule reconciled with the live
//! timestamps.
//!
//! Two cursors run over the rows of the sequence. The planned cursor follows
//! the plan alone: it is raised to each row's earliest start and advanced by
//! each row's planned duration. The predicted cursor follows reality: it is
//! set to every start that was recorded, and a row or an act that has not
//! started is never predicted before the current time. The current time is
//! looked at where a start is predicted, not before: the warm-up of a
//! category counts from where the cursor enters the row.

use crate::clock::unix_now;
use crate::http_server::{HttpError, HttpErrorView};
use crate::search::{first_from, first_index, lemma_first_index, none_satisfies};
use crate::timeplan::{
    item_status, refers_to, status_of, Category, CategoryView, Schedule, ScheduleView, ScheduledAct,
    ScheduledActView, Timeplan, TimeplanAct, TimeplanActView, TimeplanEntry, TimeplanEntryView,
    TimeplanItem, TimeplanItemView, TimeplanRow, TimeplanRowView, TimeplanView,
};
use vstd::prelude::*;

verus! {

/// Why no projection could be made.
#[derive(Clone, Copy, Debug, PartialEq, Eq, Structural)]
pub enum TimeplanError {
    /// The sequence is empty.
    NoFirstEntry,
    /// The rows are not listed in ascending order of their identifiers, or
    /// the acts of a category not in ascending order of their positions.
    OutOfSequence,
    /// The first row has no earliest start, so nothing anchors the plan.
    EarliestStartNotSet,
    /// A row is neither a category reference nor a label with a duration, the
    /// category it names lacks a description or a position, or a row or one
    /// of its acts has an end without a start.
    InvalidEntry,
    /// A row names a category that the catalog does not hold.
    UnknownCategory,
    /// An instant or a duration of the projection is no 64-bit number of
    /// seconds.
    OutOfRange,
}

/// The greater of two numbers.
pub open spec fn max_of(a: int, b: int) -> int {
    if a >= b {
        a
    } else {
        b
    }
}

/// A number that a 64-bit signed integer can hold.
pub open spec fn fits(x: int) -> bool {
    i64::MIN <= x <= i64::MAX
}

/// An act of the category `name`.
pub open spec fn in_category(name: Seq<char>) -> spec_fn(ScheduledActView) -> bool {
    |a: ScheduledActView| a.category == Some(name)
}

/// A category of the name `name`.
pub open spec fn has_name(name: Seq<char>) -> spec_fn(CategoryView) -> bool {
    |c: CategoryView| c.name == name
}

/// Started and not ended.
pub open spec fn running(started_at: Option<i64>, ended_at: Option<i64>) -> bool {
    started_at is Some && ended_at is None
}

/// An act that has started and not ended.
pub open spec fn act_running() -> spec_fn(ScheduledActView) -> bool {
    |a: ScheduledActView| running(a.started_at, a.ended_at)
}

/// A category pass: the acts of the category in schedule order and the three
/// durations of the category.
pub struct Pass {
    pub acts: Seq<ScheduledActView>,
    pub warm_up: int,
    pub act: int,
    pub judge: int,
}

impl Pass {
    /// The time from the start of one act to the start of the next.
    pub open spec fn slot(self) -> int {
        self.act + self.judge
    }

    /// Warm-up, then one slot for each act.
    pub open spec fn duration(self) -> int {
        self.warm_up + self.acts.len() * self.slot()
    }

    /// The planned start of act `k` in a pass planned to start at `p`.
    pub open spec fn planned_start(self, p: int, k: int) -> int {
        p + self.warm_up + k * self.slot()
    }

    /// The predicted cursor before act `k` in a pass predicted to start at
    /// `q`: after the warm-up, each act takes one slot from its predicted
    /// start.
    pub open spec fn cursor(self, now: int, q: int, k: int) -> int
        decreases k,
    {
        if k <= 0 {
            q + self.warm_up
        } else {
            snapped(self.acts[k - 1].started_at, now, self.cursor(now, q, k - 1)) + self.slot()
        }
    }

    /// The predicted start of act `k`.
    pub open spec fn predicted_start(self, now: int, q: int, k: int) -> int {
        snapped(self.acts[k].started_at, now, self.cursor(now, q, k))
    }

    /// The drift that the first running act of the pass shows, if an act is
    /// running: its start less its planned start.
    pub open spec fn drift(self, p: int) -> Option<int> {
        match first_index(self.acts, act_running()) {
            Some(k) => Some(self.acts[k].started_at.unwrap() - self.planned_start(p, k)),
            None => None,
        }
    }

    /// Act `k` as the projection shows it.
    pub open spec fn act(self, now: int, p: int, q: int, k: int) -> TimeplanActView {
        let a = self.acts[k];
        TimeplanActView {
            status: status_of(a.started_at, a.ended_at).unwrap(),
            id: a.id,
            name: a.name,
            started_at: a.started_at,
            ended_at: a.ended_at,
            predicted_start: self.predicted_start(now, q, k) as i64,
            predicted_end: match a.ended_at {
                Some(t) => t,
                None => (self.predicted_start(now, q, k) + self.act) as i64,
            },
            planned_start: self.planned_start(p, k) as i64,
            planned_end: (self.planned_start(p, k) + self.act) as i64,
        }
    }

    /// The instants that act `k` gives rise to are 64-bit numbers.
    pub open spec fn act_fits(self, now: int, p: int, q: int, k: int) -> bool {
        let a = self.acts[k];
        &&& fits(self.planned_start(p, k) + self.act)
        &&& fits(self.planned_start(p, k + 1))
        &&& fits(self.predicted_start(now, q, k) + self.act)
        &&& fits(self.cursor(now, q, k + 1))
        &&& running(a.started_at, a.ended_at) ==> fits(
            a.started_at.unwrap() - self.planned_start(p, k),
        )
    }

    /// The instants and the duration of the whole pass are 64-bit numbers.
    pub open spec fn all_fit(self, now: int, p: int, q: int) -> bool {
        &&& fits(p + self.warm_up)
        &&& fits(q + self.warm_up)
        &&& forall|k: int| 0 <= k < self.acts.len() ==> #[trigger] self.act_fits(now, p, q, k)
        &&& fits(self.duration())
    }
}

/// The predicted start of an act that the cursor `c` has reached: its recorded
/// start, or else the cursor, but not before `now`.
pub open spec fn snapped(started_at: Option<i64>, now: int, c: int) -> int {
    match started_at {
        Some(t) => t as int,
        None => max_of(now, c),
    }
}

/// The acts of category `name`, in schedule order.
pub open spec fn acts_of(s: ScheduleView, name: Seq<char>) -> Seq<ScheduledActView> {
    s.acts.filter(in_category(name))
}

/// The catalog's category of that name.
pub open spec fn find_category(s: ScheduleView, name: Seq<char>) -> Option<CategoryView> {
    match first_index(s.categories, has_name(name)) {
        Some(i) => Some(s.categories[i]),
        None => None,
    }
}

/// The pass of the acts `acts` through the category `c`.
pub open spec fn pass_from(acts: Seq<ScheduledActView>, c: CategoryView) -> Pass {
    Pass {
        acts: acts,
        warm_up: c.einfahrzeit_seconds as int,
        act: c.act_duration_seconds as int,
        judge: c.judge_duration_seconds as int,
    }
}

/// The pass through category `name`.
pub open spec fn pass_of(s: ScheduleView, name: Seq<char>) -> Pass {
    pass_from(acts_of(s, name), find_category(s, name).unwrap())
}

/// An act of category `name` that has an end without a start.
pub open spec fn broken_act(name: Seq<char>) -> spec_fn(ScheduledActView) -> bool {
    |a: ScheduledActView| a.category == Some(name) && status_of(a.started_at, a.ended_at) is None
}

/// What is wrong with a row, if anything.
pub open spec fn row_defect(s: ScheduleView, row: TimeplanRowView) -> Option<TimeplanError> {
    match row.category {
        Some(name) => match find_category(s, name) {
            None => Some(TimeplanError::UnknownCategory),
            Some(c) => if c.description is None || c.order is None {
                Some(TimeplanError::InvalidEntry)
            } else if !none_satisfies(s.acts, broken_act(name)) {
                Some(TimeplanError::InvalidEntry)
            } else if status_of(row.started_at, row.ended_at) is None {
                Some(TimeplanError::InvalidEntry)
            } else {
                None
            },
        },
        None => if row.duration_seconds is None || row.label is None || status_of(
            row.started_at,
            row.ended_at,
        ) is None {
            Some(TimeplanError::InvalidEntry)
        } else {
            None
        },
    }
}

/// A row with which something is wrong.
pub open spec fn defective(s: ScheduleView) -> spec_fn(TimeplanRowView) -> bool {
    |row: TimeplanRowView| row_defect(s, row) is Some
}

/// The first reason, in the order of the sequence, for which the schedule
/// cannot be projected.
pub open spec fn integrity_error(s: ScheduleView) -> Option<TimeplanError> {
    if s.entries.len() == 0 {
        Some(TimeplanError::NoFirstEntry)
    } else if !s.in_sequence() {
        Some(TimeplanError::OutOfSequence)
    } else if s.entries[0].earliest_start_time is None {
        Some(TimeplanError::EarliestStartNotSet)
    } else {
        match first_index(s.entries, defective(s)) {
            Some(i) => row_defect(s, s.entries[i]),
            None => None,
        }
    }
}

/// The planned duration of a row.
pub open spec fn row_duration(s: ScheduleView, row: TimeplanRowView) -> int {
    match row.category {
        Some(name) => pass_of(s, name).duration(),
        None => row.duration_seconds.unwrap() as int,
    }
}

/// The planned cursor `c` raised to the row's earliest start.
pub open spec fn floor_planned(row: TimeplanRowView, c: int) -> int {
    match row.earliest_start_time {
        Some(t) => max_of(t as int, c),
        None => c,
    }
}

/// The predicted cursor `c` on entering a row: the row's recorded start, or
/// else the cursor raised to the row's earliest start. It is not raised to the
/// current time.
pub open spec fn floor_predicted(row: TimeplanRowView, c: int) -> int {
    match row.started_at {
        Some(started) => started as int,
        None => floor_planned(row, c),
    }
}

/// The predicted start of a row that the cursor enters at `q`: its recorded
/// start, or else the cursor, but not before `now`.
pub open spec fn row_predicted_start(row: TimeplanRowView, now: int, q: int) -> int {
    snapped(row.started_at, now, q)
}

/// The predicted cursor after a row that it entered at `q`. A custom block
/// lasts its duration from its predicted start. Through a category the cursor
/// runs from where it entered: the warm-up is added before the current time
/// is looked at, and the acts follow.
pub open spec fn advance_predicted(s: ScheduleView, now: int, row: TimeplanRowView, q: int) -> int {
    match row.category {
        Some(name) => {
            let pass = pass_of(s, name);
            pass.cursor(now, q, pass.acts.len() as int)
        },
        None => row_predicted_start(row, now, q) + row.duration_seconds.unwrap(),
    }
}

/// The planned cursor on reaching row `i`.
pub open spec fn planned_before(s: ScheduleView, i: int) -> int
    decreases i, 0int,
{
    if i <= 0 {
        s.entries[0].earliest_start_time.unwrap() as int
    } else {
        planned_start(s, i - 1) + row_duration(s, s.entries[i - 1])
    }
}

/// The planned start of row `i`.
pub open spec fn planned_start(s: ScheduleView, i: int) -> int
    decreases i, 1int,
{
    if i < 0 {
        0
    } else {
        floor_planned(s.entries[i], planned_before(s, i))
    }
}

/// The predicted cursor on reaching row `i`.
pub open spec fn predicted_before(s: ScheduleView, now: int, i: int) -> int
    decreases i, 0int,
{
    if i <= 0 {
        planned_before(s, 0)
    } else {
        advance_predicted(s, now, s.entries[i - 1], entered_at(s, now, i - 1))
    }
}

/// The predicted cursor on entering row `i`.
pub open spec fn entered_at(s: ScheduleView, now: int, i: int) -> int
    decreases i, 1int,
{
    if i < 0 {
        0
    } else {
        floor_predicted(s.entries[i], predicted_before(s, now, i))
    }
}

/// The drift that row `i` shows, if it shows any: that of the running act of
/// its category, or else, where the row itself is running, its start less its
/// planned start.
pub open spec fn row_drift(s: ScheduleView, i: int) -> Option<int> {
    let row = s.entries[i];
    let own = if running(row.started_at, row.ended_at) {
        Some(row.started_at.unwrap() - planned_start(s, i))
    } else {
        None
    };
    match row.category {
        Some(name) => match pass_of(s, name).drift(planned_start(s, i)) {
            Some(d) => Some(d),
            None => own,
        },
        None => own,
    }
}

/// The lead of the current time over the first planned start, if it has one.
pub open spec fn lead(s: ScheduleView, now: int) -> int {
    max_of(now, planned_before(s, 0)) - planned_before(s, 0)
}

/// The drift after the first `i` rows: that of the last row that shows one,
/// and before any does, the lead of the current time over the first planned
/// start.
pub open spec fn drift_after(s: ScheduleView, now: int, i: int) -> int
    decreases i,
{
    if i <= 0 {
        lead(s, now)
    } else {
        match row_drift(s, i - 1) {
            Some(d) => d,
            None => drift_after(s, now, i - 1),
        }
    }
}

/// What row `i` is, with its acts.
pub open spec fn entry_at(s: ScheduleView, now: int, i: int) -> TimeplanEntryView {
    let row = s.entries[i];
    match row.category {
        Some(name) => {
            let c = find_category(s, name).unwrap();
            let pass = pass_of(s, name);
            TimeplanEntryView::Category {
                name: name,
                description: c.description.unwrap(),
                duration_seconds: pass.duration() as i64,
                order: c.order.unwrap(),
                einfahrzeit_seconds: c.einfahrzeit_seconds,
                act_duration_seconds: c.act_duration_seconds,
                judge_duration_seconds: c.judge_duration_seconds,
                acts: Seq::new(
                    pass.acts.len(),
                    |k: int| pass.act(now, planned_start(s, i), entered_at(s, now, i), k),
                ),
            }
        },
        None => TimeplanEntryView::Custom {
            label: row.label.unwrap(),
            duration_seconds: row.duration_seconds.unwrap(),
        },
    }
}

/// The predicted start of row `i`: its recorded start, or else the cursor on
/// entering it, but not before `now`.
pub open spec fn predicted_start(s: ScheduleView, now: int, i: int) -> int {
    row_predicted_start(s.entries[i], now, entered_at(s, now, i))
}

/// Row `i` as the projection shows it. Its predicted end is its recorded end,
/// or else its planned duration after its predicted start.
pub open spec fn item_at(s: ScheduleView, now: int, i: int) -> TimeplanItemView {
    let row = s.entries[i];
    TimeplanItemView {
        status: status_of(row.started_at, row.ended_at).unwrap(),
        predicted_start: predicted_start(s, now, i) as i64,
        predicted_end: match row.ended_at {
            Some(t) => t,
            None => (predicted_start(s, now, i) + row_duration(s, row)) as i64,
        },
        planned_start: planned_start(s, i) as i64,
        planned_end: (planned_start(s, i) + row_duration(s, row)) as i64,
        planned_duration: row_duration(s, row) as i64,
        started_at: row.started_at,
        ended_at: row.ended_at,
        timeplan_entry: entry_at(s, now, i),
    }
}

/// The projection of a schedule at the time `now`.
pub open spec fn projection(s: ScheduleView, now: int) -> TimeplanView {
    TimeplanView {
        offset: drift_after(s, now, s.entries.len() as int) as i64,
        items: Seq::new(s.entries.len(), |i: int| item_at(s, now, i)),
    }
}

/// The instants and durations that row `i` gives rise to are 64-bit numbers.
pub open spec fn row_fits(s: ScheduleView, now: int, i: int) -> bool {
    let row = s.entries[i];
    let p = planned_start(s, i);
    let q = entered_at(s, now, i);
    &&& fits(p + row_duration(s, row))
    &&& fits(predicted_start(s, now, i) + row_duration(s, row))
    &&& running(row.started_at, row.ended_at) ==> fits(row.started_at.unwrap() - p)
    &&& match row.category {
        Some(name) => pass_of(s, name).all_fit(now, p, q),
        None => true,
    }
}

/// Every instant and duration on the way to the projection is a 64-bit
/// number of seconds.
pub open spec fn representable(s: ScheduleView, now: int) -> bool {
    &&& fits(lead(s, now))
    &&& forall|i: int| 0 <= i < s.entries.len() ==> #[trigger] row_fits(s, now, i)
}

/// What the prediction returns: the first integrity failure, or else the
/// projection, provided that it is representable.
pub open spec fn prediction(s: ScheduleView, now: int) -> Result<TimeplanView, TimeplanError> {
    match integrity_error(s) {
        Some(e) => Err(e),
        None => if representable(s, now) {
            Ok(projection(s, now))
        } else {
            Err(TimeplanError::OutOfRange)
        },
    }
}

/// Looks a category up in the catalog.
fn lookup_category<'a>(s: &'a Schedule, name: &String) -> (res: Option<&'a Category>)
    ensures
        match res {
            Some(c) => find_category(s@, name@) == Some(c@),
            None => find_category(s@, name@) is None,
        },
{
    let mut i: usize = 0;
    while i < s.categories.len()
        invariant
            i <= s.categories.len(),
            first_index(s@.categories, has_name(name@)) == first_from(
                s@.categories,
                has_name(name@),
                i as int,
            ),
        decreases s.categories.len() - i,
    {
        if s.categories[i].name == *name {
            return Some(&s.categories[i]);
        }
        i = i + 1;
    }
    None
}

/// The acts as the contracts speak of them.
pub open spec fn act_views(v: Seq<&ScheduledAct>) -> Seq<ScheduledActView> {
    Seq::new(v.len(), |k: int| v[k]@)
}

/// The acts of a category, in schedule order.
fn select_acts<'a>(s: &'a Schedule, name: &String) -> (out: Vec<&'a ScheduledAct>)
    ensures
        act_views(out@) == acts_of(s@, name@),
{
    let mut out: Vec<&'a ScheduledAct> = Vec::new();
    let mut i: usize = 0;
    proof {
        reveal(Seq::filter);
        assert(s@.acts.take(0).filter(in_category(name@)) =~= Seq::empty());
    }
    while i < s.acts.len()
        invariant
            i <= s.acts.len(),
            act_views(out@) =~= s@.acts.take(i as int).filter(in_category(name@)),
        decreases s.acts.len() - i,
    {
        let a = &s.acts[i];
        proof {
            reveal(Seq::filter);
            assert(s@.acts.take(i + 1).drop_last() =~= s@.acts.take(i as int));
            assert(s@.acts.take(i + 1).last() == a@);
        }
        if refers_to(&a.category, name) {
            out.push(a);
        }
        i = i + 1;
    }
    assert(s@.acts.take(i as int) =~= s@.acts);
    out
}

/// Whether an act of the category has an end without a start.
fn has_broken_act(s: &Schedule, name: &String) -> (r: bool)
    ensures
        r == !none_satisfies(s@.acts, broken_act(name@)),
{
    let mut i: usize = 0;
    while i < s.acts.len()
        invariant
            i <= s.acts.len(),
            forall|j: int| 0 <= j < i ==> !broken_act(name@)(#[trigger] s@.acts[j]),
        decreases s.acts.len() - i,
    {
        let a = &s.acts[i];
        if refers_to(&a.category, name) && item_status(a.started_at, a.ended_at).is_none() {
            assert(broken_act(name@)(s@.acts[i as int]));
            return true;
        }
        i = i + 1;
    }
    false
}

/// What is wrong with a row, if anything.
fn defect_of(s: &Schedule, row: &TimeplanRow) -> (res: Option<TimeplanError>)
    ensures
        res == row_defect(s@, row@),
{
    let status = item_status(row.started_at, row.ended_at);
    match &row.category {
        Some(name) => match lookup_category(s, name) {
            None => Some(TimeplanError::UnknownCategory),
            Some(c) => {
                if c.description.is_none() || c.order.is_none() {
                    Some(TimeplanError::InvalidEntry)
                } else if has_broken_act(s, name) {
                    Some(TimeplanError::InvalidEntry)
                } else if status.is_none() {
                    Some(TimeplanError::InvalidEntry)
                } else {
                    None
                }
            },
        },
        None => {
            if row.duration_seconds.is_none() || row.label.is_none() || status.is_none() {
                Some(TimeplanError::InvalidEntry)
            } else {
                None
            }
        },
    }
}

/// The first reason for which the schedule cannot be projected, if any.
pub fn check_integrity(s: &Schedule) -> (res: Option<TimeplanError>)
    ensures
        res == integrity_error(s@),
{
    if s.entries.len() == 0 {
        return Some(TimeplanError::NoFirstEntry);
    }
    if !s.is_in_sequence() {
        return Some(TimeplanError::OutOfSequence);
    }
    if s.entries[0].earliest_start_time.is_none() {
        return Some(TimeplanError::EarliestStartNotSet);
    }
    let mut i: usize = 0;
    while i < s.entries.len()
        invariant
            i <= s.entries.len(),
            s@.entries.len() > 0,
            s@.in_sequence(),
            s@.entries[0].earliest_start_time is Some,
            first_index(s@.entries, defective(s@)) == first_from(
                s@.entries,
                defective(s@),
                i as int,
            ),
        decreases s.entries.len() - i,
    {
        let d = defect_of(s, &s.entries[i]);
        assert(s@.entries[i as int] == s.entries[i as int]@);
        if d.is_some() {
            assert(defective(s@)(s@.entries[i as int]));
            return d;
        }
        i = i + 1;
    }
    None
}

/// The projected acts as the contracts speak of them.
pub open spec fn projected_acts(v: Seq<TimeplanAct>) -> Seq<TimeplanActView> {
    Seq::new(v.len(), |k: int| v[k]@)
}

/// An optional number as a mathematical integer.
pub open spec fn widen(o: Option<i64>) -> Option<int> {
    match o {
        Some(x) => Some(x as int),
        None => None,
    }
}

/// What a pass contributes to the projection.
struct PassProjection {
    acts: Vec<TimeplanAct>,
    duration: i64,
    predicted_end: i64,
    drift: Option<i64>,
}

fn later(a: i64, b: i64) -> (r: i64)
    ensures
        r == max_of(a as int, b as int),
{
    if a >= b {
        a
    } else {
        b
    }
}

/// Projects the acts of one pass that is planned to start at `p` and that the
/// predicted cursor enters at `q`; `None` where a number does not fit.
fn project_pass(acts: &Vec<&ScheduledAct>, cat: &Category, now: i64, p: i64, q: i64) -> (res:
    Option<PassProjection>)
    requires
        forall|k: int|
            0 <= k < acts@.len() ==> status_of(
                (#[trigger] acts@[k]).started_at,
                acts@[k].ended_at,
            ) is Some,
    ensures
        ({
            let pass = pass_from(act_views(acts@), cat@);
            match res {
                Some(r) => {
                    &&& pass.all_fit(now as int, p as int, q as int)
                    &&& projected_acts(r.acts@) =~= Seq::new(
                        pass.acts.len(),
                        |k: int| pass.act(now as int, p as int, q as int, k),
                    )
                    &&& r.duration == pass.duration()
                    &&& r.predicted_end == pass.cursor(
                        now as int,
                        q as int,
                        pass.acts.len() as int,
                    )
                    &&& widen(r.drift) == pass.drift(p as int)
                },
                None => !pass.all_fit(now as int, p as int, q as int),
            }
        }),
{
    let ghost pass = pass_from(act_views(acts@), cat@);
    let w = cat.einfahrzeit_seconds;
    let d = cat.act_duration_seconds;
    let j = cat.judge_duration_seconds;
    let mut pc = match p.checked_add(w) {
        Some(x) => x,
        None => {
            return None;
        },
    };
    let mut qc = match q.checked_add(w) {
        Some(x) => x,
        None => {
            return None;
        },
    };
    let mut out: Vec<TimeplanAct> = Vec::new();
    let mut drift: Option<i64> = None;
    let mut k: usize = 0;
    while k < acts.len()
        invariant
            k <= acts.len(),
            pass == pass_from(act_views(acts@), cat@),
            w == cat.einfahrzeit_seconds,
            d == cat.act_duration_seconds,
            j == cat.judge_duration_seconds,
            forall|m: int|
                0 <= m < acts@.len() ==> status_of(
                    (#[trigger] acts@[m]).started_at,
                    acts@[m].ended_at,
                ) is Some,
            fits(p + pass.warm_up),
            fits(q + pass.warm_up),
            pc == pass.planned_start(p as int, k as int),
            qc == pass.cursor(now as int, q as int, k as int),
            forall|m: int| 0 <= m < k ==> #[trigger] pass.act_fits(now as int, p as int, q as int, m),
            out@.len() == k,
            forall|m: int|
                0 <= m < k ==> (#[trigger] out@[m])@ == pass.act(now as int, p as int, q as int, m),
            match drift {
                Some(x) => pass.drift(p as int) == Some(x as int),
                None => first_index(pass.acts, act_running()) == first_from(
                    pass.acts,
                    act_running(),
                    k as int,
                ),
            },
        decreases acts.len() - k,
    {
        let a = acts[k];
        proof {
            assert(pass.acts[k as int] == a@);
            assert((k + 1) * pass.slot() == k * pass.slot() + pass.slot()) by (nonlinear_arith);
        }
        let status = match item_status(a.started_at, a.ended_at) {
            Some(st) => st,
            None => {
                return None;
            },
        };
        if let (Some(started), None) = (a.started_at, a.ended_at) {
            match started.checked_sub(pc) {
                Some(x) => {
                    if drift.is_none() {
                        drift = Some(x);
                    }
                },
                None => {
                    assert(!pass.act_fits(now as int, p as int, q as int, k as int));
                    return None;
                },
            }
        }
        let planned_end = match pc.checked_add(d) {
            Some(x) => x,
            None => {
                assert(!pass.act_fits(now as int, p as int, q as int, k as int));
                return None;
            },
        };
        let planned_next = match planned_end.checked_add(j) {
            Some(x) => x,
            None => {
                assert(!pass.act_fits(now as int, p as int, q as int, k as int));
                return None;
            },
        };
        let predicted_start = match a.started_at {
            Some(t) => t,
            None => later(now, qc),
        };
        let predicted_slot_end = match predicted_start.checked_add(d) {
            Some(x) => x,
            None => {
                assert(!pass.act_fits(now as int, p as int, q as int, k as int));
                return None;
            },
        };
        let predicted_next = match predicted_slot_end.checked_add(j) {
            Some(x) => x,
            None => {
                assert(!pass.act_fits(now as int, p as int, q as int, k as int));
                return None;
            },
        };
        out.push(
            TimeplanAct {
                status,
                id: a.id,
                name: a.name.clone(),
                started_at: a.started_at,
                ended_at: a.ended_at,
                predicted_start,
                predicted_end: match a.ended_at {
                    Some(t) => t,
                    None => predicted_slot_end,
                },
                planned_start: pc,
                planned_end,
            },
        );
        assert(pass.act_fits(now as int, p as int, q as int, k as int));
        pc = planned_next;
        qc = predicted_next;
        k = k + 1;
    }
    let duration = match pc.checked_sub(p) {
        Some(x) => x,
        None => {
            return None;
        },
    };
    Some(PassProjection { acts: out, duration, predicted_end: qc, drift })
}

/// The outcome of a projection as the contracts speak of it.
pub open spec fn result_view(r: Result<Timeplan, TimeplanError>) -> Result<
    TimeplanView,
    TimeplanError,
> {
    match r {
        Ok(t) => Ok(t@),
        Err(e) => Err(e),
    }
}

/// Projects the schedule at the time `now`: every row, and within a category
/// row every act, with its status, its planned start and end and its
/// predicted start and end, and the drift of the event against the plan.
///
/// Fails with the first integrity failure in the order of the sequence; where
/// there is none, fails only if a number on the way is no 64-bit number of
/// seconds.
pub fn project_timeplan(s: &Schedule, now: i64) -> (res: Result<Timeplan, TimeplanError>)
    ensures
        result_view(res) == prediction(s@, now as int),
{
    if let Some(e) = check_integrity(s) {
        return Err(e);
    }
    proof {
        lemma_first_index(s@.entries, defective(s@));
    }
    let first = match s.entries[0].earliest_start_time {
        Some(t) => t,
        None => {
            return Err(TimeplanError::EarliestStartNotSet);
        },
    };
    let mut planned = first;
    let mut predicted = first;
    let mut offset = match later(now, first).checked_sub(first) {
        Some(x) => x,
        None => {
            return Err(TimeplanError::OutOfRange);
        },
    };
    let mut items: Vec<TimeplanItem> = Vec::new();
    let mut i: usize = 0;
    while i < s.entries.len()
        invariant
            i <= s.entries.len(),
            integrity_error(s@) is None,
            none_satisfies(s@.entries, defective(s@)),
            fits(lead(s@, now as int)),
            planned == planned_before(s@, i as int),
            predicted == predicted_before(s@, now as int, i as int),
            offset == drift_after(s@, now as int, i as int),
            forall|m: int| 0 <= m < i ==> #[trigger] row_fits(s@, now as int, m),
            items@.len() == i,
            forall|m: int| 0 <= m < i ==> (#[trigger] items@[m])@ == item_at(s@, now as int, m),
        decreases s.entries.len() - i,
    {
        let row = &s.entries[i];
        proof {
            assert(s@.entries[i as int] == row@);
            assert(!defective(s@)(s@.entries[i as int]));
            assert(row_defect(s@, row@) is None);
        }
        let status = match item_status(row.started_at, row.ended_at) {
            Some(st) => st,
            None => {
                return Err(TimeplanError::InvalidEntry);
            },
        };
        let p = match row.earliest_start_time {
            Some(est) => later(est, planned),
            None => planned,
        };
        let q = match (row.started_at, row.earliest_start_time) {
            (Some(t), _) => t,
            (None, Some(est)) => later(est, predicted),
            (None, None) => predicted,
        };
        let start = match row.started_at {
            Some(t) => t,
            None => later(now, q),
        };
        assert(p == planned_start(s@, i as int));
        assert(q == entered_at(s@, now as int, i as int));
        assert(start == predicted_start(s@, now as int, i as int));
        let own_drift = if let (Some(started), None) = (row.started_at, row.ended_at) {
            match started.checked_sub(p) {
                Some(x) => Some(x),
                None => {
                    assert(!row_fits(s@, now as int, i as int));
                    return Err(TimeplanError::OutOfRange);
                },
            }
        } else {
            None
        };
        let entry;
        let duration;
        let predicted_next;
        let drift;
        match (&row.category, row.duration_seconds, &row.label) {
            (Some(name), _, _) => {
                let cat = match lookup_category(s, name) {
                    Some(c) => c,
                    None => {
                        return Err(TimeplanError::UnknownCategory);
                    },
                };
                let description = match &cat.description {
                    Some(text) => text.clone(),
                    None => {
                        return Err(TimeplanError::InvalidEntry);
                    },
                };
                let order = match cat.order {
                    Some(o) => o,
                    None => {
                        return Err(TimeplanError::InvalidEntry);
                    },
                };
                let acts = select_acts(s, name);
                proof {
                    let all = s@.acts;
                    let mine = acts_of(s@, name@);
                    assert forall|k: int| 0 <= k < acts@.len() implies status_of(
                        (#[trigger] acts@[k]).started_at,
                        acts@[k].ended_at,
                    ) is Some by {
                        assert(mine[k] == acts@[k]@);
                        all.lemma_filter_pred(in_category(name@), k);
                        all.lemma_filter_contains_rev(in_category(name@), mine[k]);
                        let m = choose|m: int| 0 <= m < all.len() && all[m] == mine[k];
                        assert(!broken_act(name@)(all[m]));
                    }
                }
                let pass = match project_pass(&acts, cat, now, p, q) {
                    Some(r) => r,
                    None => {
                        assert(!row_fits(s@, now as int, i as int));
                        return Err(TimeplanError::OutOfRange);
                    },
                };
                duration = pass.duration;
                predicted_next = pass.predicted_end;
                drift = match pass.drift {
                    Some(x) => Some(x),
                    None => own_drift,
                };
                entry = TimeplanEntry::Category {
                    name: name.clone(),
                    description,
                    duration_seconds: pass.duration,
                    order,
                    einfahrzeit_seconds: cat.einfahrzeit_seconds,
                    act_duration_seconds: cat.act_duration_seconds,
                    judge_duration_seconds: cat.judge_duration_seconds,
                    acts: pass.acts,
                };
            },
            (None, Some(length), Some(label)) => {
                duration = length;
                predicted_next = match start.checked_add(length) {
                    Some(x) => x,
                    None => {
                        assert(!row_fits(s@, now as int, i as int));
                        return Err(TimeplanError::OutOfRange);
                    },
                };
                drift = own_drift;
                entry = TimeplanEntry::Custom { label: label.clone(), duration_seconds: length };
            },
            _ => {
                return Err(TimeplanError::InvalidEntry);
            },
        }
        assert(duration == row_duration(s@, row@));
        assert(entry@ == entry_at(s@, now as int, i as int));
        assert(widen(drift) == row_drift(s@, i as int));
        let planned_end = match p.checked_add(duration) {
            Some(x) => x,
            None => {
                assert(!row_fits(s@, now as int, i as int));
                return Err(TimeplanError::OutOfRange);
            },
        };
        let predicted_end = match start.checked_add(duration) {
            Some(x) => x,
            None => {
                assert(!row_fits(s@, now as int, i as int));
                return Err(TimeplanError::OutOfRange);
            },
        };
        assert(row_fits(s@, now as int, i as int));
        items.push(
            TimeplanItem {
                status,
                predicted_start: start,
                predicted_end: match row.ended_at {
                    Some(t) => t,
                    None => predicted_end,
                },
                planned_start: p,
                planned_end,
                planned_duration: duration,
                started_at: row.started_at,
                ended_at: row.ended_at,
                timeplan_entry: entry,
            },
        );
        if let Some(x) = drift {
            offset = x;
        }
        planned = planned_end;
        predicted = predicted_next;
        i = i + 1;
    }
    let timeplan = Timeplan { offset, items };
    assert(timeplan@.items =~= projection(s@, now as int).items);
    Ok(timeplan)
}

impl TimeplanError {
    /// The failure as a request fails with it.
    pub open spec fn spec_http(self) -> HttpErrorView {
        match self {
            TimeplanError::NoFirstEntry => HttpErrorView::ErrorMessages("No first entry"@),
            TimeplanError::OutOfSequence => HttpErrorView::InternalServerError,
            TimeplanError::EarliestStartNotSet => HttpErrorView::ErrorMessages(
                "Earliest start time is not set"@,
            ),
            TimeplanError::InvalidEntry => HttpErrorView::ErrorMessages("Invalid timeplan entry"@),
            TimeplanError::UnknownCategory => HttpErrorView::NotFound,
            TimeplanError::OutOfRange => HttpErrorView::InternalServerError,
        }
    }

    /// The failure as a request fails with it: an integrity failure with its
    /// message, an unknown category as not found, a schedule out of sequence
    /// or a number out of range as an internal error.
    pub fn into_http(self) -> (res: HttpError)
        ensures
            res@ == self.spec_http(),
    {
        match self {
            TimeplanError::NoFirstEntry => HttpError::ErrorMessages("No first entry".to_owned()),
            TimeplanError::OutOfSequence => HttpError::InternalServerError,
            TimeplanError::EarliestStartNotSet => HttpError::ErrorMessages(
                "Earliest start time is not set".to_owned(),
            ),
            TimeplanError::InvalidEntry => HttpError::ErrorMessages(
                "Invalid timeplan entry".to_owned(),
            ),
            TimeplanError::UnknownCategory => HttpError::NotFound,
            TimeplanError::OutOfRange => HttpError::InternalServerError,
        }
    }
}

/// The answer to a request as the contracts speak of it.
pub open spec fn answer_view(r: Result<Timeplan, HttpError>) -> Result<TimeplanView, HttpErrorView> {
    match r {
        Ok(t) => Ok(t@),
        Err(e) => Err(e@),
    }
}

/// What a request for the prediction is answered with at the time `now`.
pub open spec fn predicted(s: ScheduleView, now: int) -> Result<TimeplanView, HttpErrorView> {
    match prediction(s, now) {
        Ok(t) => Ok(t),
        Err(e) => Err(e.spec_http()),
    }
}

/// Answers a request for the prediction at the time `now`; see
/// `project_timeplan`.
pub fn predict_timeplan_at(s: &Schedule, now: i64) -> (res: Result<Timeplan, HttpError>)
    ensures
        answer_view(res) == predicted(s@, now as int),
{
    match project_timeplan(s, now) {
        Ok(t) => Ok(t),
        Err(e) => Err(e.into_http()),
    }
}

/// Answers a request for the prediction at the current time of the system
/// clock.
pub fn predict_timeplan(s: &Schedule) -> (res: Result<Timeplan, HttpError>)
    ensures
        exists|now: i64| answer_view(res) == #[trigger] predicted(s@, now as int),
{
    let now = unix_now();
    let res = predict_timeplan_at(s, now);
    assert(answer_view(res) == predicted(s@, now as int));
    res
}

/// One of the acts of the category of row `i` has a recorded start that lies
/// more than a slot before the instant that the predicted cursor would
/// otherwise give it.
pub open spec fn act_pulls_back(s: ScheduleView, now: int, i: int) -> bool {
    match s.entries[i].category {
        Some(name) => {
            let pass = pass_of(s, name);
            exists|k: int|
                0 <= k < pass.acts.len() && #[trigger] pass.pulls_back(
                    now,
                    entered_at(s, now, i),
                    k,
                )
        },
        None => false,
    }
}

/// A row, or one of the acts of its category, has a recorded start that lies
/// before the instant that the predicted cursor would otherwise give it.
pub open spec fn pulls_back(s: ScheduleView, now: int, i: int) -> bool {
    let row = s.entries[i];
    ||| row.started_at is Some && row.started_at.unwrap() < predicted_before(s, now, i)
    ||| act_pulls_back(s, now, i)
}

/// No duration of the row is negative.
pub open spec fn durations_not_negative(s: ScheduleView, row: TimeplanRowView) -> bool {
    match row.category {
        Some(name) => {
            let pass = pass_of(s, name);
            0 <= pass.warm_up && 0 <= pass.act && 0 <= pass.judge
        },
        None => 0 <= row.duration_seconds.unwrap(),
    }
}

impl Pass {
    /// Act `k` has a recorded start, and a slot from it ends before the
    /// predicted cursor that reaches the act.
    pub open spec fn pulls_back(self, now: int, q: int, k: int) -> bool {
        self.acts[k].started_at is Some && self.acts[k].started_at.unwrap() + self.slot()
            < self.cursor(now, q, k)
    }

    /// In a pass that is not yet due and in which no act has started, every
    /// act is predicted a whole number of slots after the warm-up.
    pub proof fn lemma_untouched_pass(self, now: int, q: int, k: int)
        requires
            0 <= k <= self.acts.len(),
            0 <= self.slot(),
            now <= q + self.warm_up,
            forall|m: int| 0 <= m < self.acts.len() ==> (#[trigger] self.acts[m]).started_at is None,
        ensures
            self.cursor(now, q, k) == q + self.warm_up + k * self.slot(),
            k < self.acts.len() ==> self.predicted_start(now, q, k) == q + self.warm_up + k
                * self.slot(),
        decreases k,
    {
        let slot = self.slot();
        assert(0 <= k * slot) by (nonlinear_arith)
            requires
                0 <= k,
                0 <= slot,
        ;
        if k > 0 {
            self.lemma_untouched_pass(now, q, k - 1);
            assert(k * slot == (k - 1) * slot + slot) by (nonlinear_arith);
            assert(0 <= (k - 1) * slot) by (nonlinear_arith)
                requires
                    0 <= k - 1,
                    0 <= slot,
            ;
            assert(self.acts[k - 1].started_at is None);
            assert(self.cursor(now, q, k - 1) >= now);
            assert(self.cursor(now, q, k) == self.cursor(now, q, k - 1) + slot);
        } else {
            assert(k * slot == 0) by (nonlinear_arith)
                requires
                    k == 0,
            ;
        }
        if k < self.acts.len() {
            assert(self.acts[k].started_at is None);
        }
    }

    /// An act without a recorded start is predicted where the cursor stands
    /// after the warm-up and the slots before it, but not before `now`. The
    /// first act is predicted at the end of the warm-up, or now if that is
    /// later.
    pub proof fn lemma_unstarted_act(self, now: int, q: int, k: int)
        requires
            0 <= k < self.acts.len(),
            self.acts[k].started_at is None,
        ensures
            self.predicted_start(now, q, k) == max_of(now, self.cursor(now, q, k)),
            self.predicted_start(now, q, k) >= now,
            k == 0 ==> self.predicted_start(now, q, k) == max_of(now, q + self.warm_up),
    {
    }

    /// Over one act the predicted cursor moves backward exactly if the act
    /// pulls it back.
    pub proof fn lemma_cursor_step(self, now: int, q: int, k: int)
        requires
            0 <= k < self.acts.len(),
            0 <= self.slot(),
        ensures
            self.cursor(now, q, k + 1) < self.cursor(now, q, k) <==> self.pulls_back(now, q, k),
    {
    }

    /// Within a pass the predicted cursor never moves backward over acts that
    /// do not pull it back.
    pub proof fn lemma_cursor_monotone(self, now: int, q: int, k1: int, k2: int)
        requires
            0 <= k1 <= k2 <= self.acts.len(),
            0 <= self.slot(),
            forall|k: int| k1 <= k < k2 ==> !#[trigger] self.pulls_back(now, q, k),
        ensures
            self.cursor(now, q, k1) <= self.cursor(now, q, k2),
        decreases k2 - k1,
    {
        if k1 < k2 {
            self.lemma_cursor_monotone(now, q, k1, k2 - 1);
            self.lemma_cursor_step(now, q, k2 - 1);
            assert(!self.pulls_back(now, q, k2 - 1));
        }
    }
}

/// Over one row the predicted cursor does not move backward, unless a
/// recorded start pulls it back.
pub proof fn lemma_predicted_cursor_step(s: ScheduleView, now: int, i: int)
    requires
        0 <= i < s.entries.len(),
        durations_not_negative(s, s.entries[i]),
        !pulls_back(s, now, i),
    ensures
        predicted_before(s, now, i) <= entered_at(s, now, i) <= predicted_before(s, now, i + 1),
{
    let row = s.entries[i];
    match row.category {
        Some(name) => {
            let pass = pass_of(s, name);
            let q = entered_at(s, now, i);
            assert forall|k: int| 0 <= k < pass.acts.len() implies !#[trigger] pass.pulls_back(
                now,
                q,
                k,
            ) by {}
            pass.lemma_cursor_monotone(now, q, 0, pass.acts.len() as int);
        },
        None => {},
    }
}

/// The predicted cursor never moves backward across the fold, except where a
/// recorded start pulls it back.
pub proof fn lemma_predicted_cursor_monotone(s: ScheduleView, now: int, i: int, j: int)
    requires
        0 <= i <= j <= s.entries.len(),
        forall|m: int| i <= m < j ==> durations_not_negative(s, #[trigger] s.entries[m]),
        forall|m: int| i <= m < j ==> !#[trigger] pulls_back(s, now, m),
    ensures
        predicted_before(s, now, i) <= predicted_before(s, now, j),
    decreases j - i,
{
    if i < j {
        lemma_predicted_cursor_monotone(s, now, i, j - 1);
        assert(durations_not_negative(s, s.entries[j - 1]));
        assert(!pulls_back(s, now, j - 1));
        lemma_predicted_cursor_step(s, now, j - 1);
    }
}

/// The planned cursor never moves backward across the fold.
pub proof fn lemma_planned_cursor_monotone(s: ScheduleView, i: int, j: int)
    requires
        0 <= i <= j <= s.entries.len(),
        forall|m: int| i <= m < j ==> durations_not_negative(s, #[trigger] s.entries[m]),
    ensures
        planned_before(s, i) <= planned_before(s, j),
    decreases j - i,
{
    if i < j {
        lemma_planned_cursor_monotone(s, i, j - 1);
        let row = s.entries[j - 1];
        assert(durations_not_negative(s, row));
        match row.category {
            Some(name) => {
                let pass = pass_of(s, name);
                assert(0 <= pass.acts.len() * pass.slot()) by (nonlinear_arith)
                    requires
                        0 <= pass.acts.len(),
                        0 <= pass.slot(),
                ;
            },
            None => {},
        }
    }
}

/// In a representable schedule the predicted cursor and the predicted start
/// of every row are 64-bit numbers.
pub proof fn lemma_predicted_fits(s: ScheduleView, now: int, i: int)
    requires
        fits(now),
        representable(s, now),
        0 <= i < s.entries.len(),
    ensures
        fits(predicted_before(s, now, i)),
        fits(entered_at(s, now, i)),
        fits(predicted_start(s, now, i)),
    decreases i,
{
    if i > 0 {
        lemma_predicted_fits(s, now, i - 1);
        assert(row_fits(s, now, i - 1));
        let row = s.entries[i - 1];
        match row.category {
            Some(name) => {
                let pass = pass_of(s, name);
                let m = pass.acts.len() as int;
                if m > 0 {
                    assert(pass.act_fits(now, planned_start(s, i - 1), entered_at(s, now, i - 1), m - 1));
                }
            },
            None => {},
        }
    }
}

/// A row that has not started is never predicted in the past, nor before its
/// earliest start.
pub proof fn lemma_unstarted_row_not_in_past(s: ScheduleView, now: i64, i: int)
    requires
        representable(s, now as int),
        0 <= i < s.entries.len(),
        s.entries[i].started_at is None,
    ensures
        projection(s, now as int).items[i].predicted_start >= now,
        s.entries[i].earliest_start_time matches Some(e) ==> projection(
            s,
            now as int,
        ).items[i].predicted_start >= e,
{
    lemma_predicted_fits(s, now as int, i);
}

/// A row that has started is predicted at its recorded start.
pub proof fn lemma_started_row_is_pinned(s: ScheduleView, now: i64, i: int)
    requires
        0 <= i < s.entries.len(),
        s.entries[i].started_at is Some,
    ensures
        projection(s, now as int).items[i].predicted_start == s.entries[i].started_at.unwrap(),
{
}

/// No act of the category of row `i` has a recorded start before the instant
/// at which the predicted cursor enters the row.
pub open spec fn acts_start_after_entry(s: ScheduleView, now: int, i: int) -> bool {
    match s.entries[i].category {
        Some(name) => {
            let pass = pass_of(s, name);
            forall|k: int|
                0 <= k < pass.acts.len() && (#[trigger] pass.acts[k]).started_at is Some
                    ==> pass.acts[k].started_at.unwrap() >= entered_at(s, now, i)
        },
        None => true,
    }
}

impl Pass {
    /// Where no act has a recorded start before `q`, the predicted cursor
    /// never stands before `q`.
    pub proof fn lemma_cursor_not_before_entry(self, now: int, q: int, k: int)
        requires
            0 <= k <= self.acts.len(),
            0 <= self.warm_up,
            0 <= self.slot(),
            forall|m: int|
                0 <= m < self.acts.len() && (#[trigger] self.acts[m]).started_at is Some
                    ==> self.acts[m].started_at.unwrap() >= q,
        ensures
            self.cursor(now, q, k) >= q,
        decreases k,
    {
        if k > 0 {
            self.lemma_cursor_not_before_entry(now, q, k - 1);
            assert(self.acts[k - 1].started_at is Some ==> self.acts[k - 1].started_at.unwrap()
                >= q);
        }
    }
}

/// A row that has not started is never predicted before the row that
/// precedes it, nor in the past, provided that no duration of the preceding
/// row is negative and none of its acts has a recorded start from before the
/// row was entered.
pub proof fn lemma_unstarted_row_follows(s: ScheduleView, now: i64, i: int)
    requires
        representable(s, now as int),
        0 <= i,
        i + 1 < s.entries.len(),
        durations_not_negative(s, s.entries[i]),
        acts_start_after_entry(s, now as int, i),
        s.entries[i + 1].started_at is None,
    ensures
        projection(s, now as int).items[i + 1].predicted_start >= projection(
            s,
            now as int,
        ).items[i].predicted_start,
        projection(s, now as int).items[i + 1].predicted_start >= now,
{
    lemma_predicted_fits(s, now as int, i);
    lemma_predicted_fits(s, now as int, i + 1);
    let row = s.entries[i];
    let q = entered_at(s, now as int, i);
    match row.category {
        Some(name) => {
            let pass = pass_of(s, name);
            pass.lemma_cursor_not_before_entry(now as int, q, pass.acts.len() as int);
        },
        None => {},
    }
    assert(predicted_before(s, now as int, i + 1) >= q);
}

/// In a category whose row is entered at `q`, an act that has not started is
/// never predicted in the past; the first act is predicted at the end of the
/// warm-up, or now if that is later.
pub proof fn lemma_unstarted_act_not_in_past(s: ScheduleView, now: i64, i: int, k: int)
    requires
        representable(s, now as int),
        0 <= i < s.entries.len(),
        s.entries[i].category is Some,
        0 <= k < acts_of(s, s.entries[i].category.unwrap()).len(),
        acts_of(s, s.entries[i].category.unwrap())[k].started_at is None,
    ensures
        ({
            let pass = pass_of(s, s.entries[i].category.unwrap());
            let act = pass.act(now as int, planned_start(s, i), entered_at(s, now as int, i), k);
            &&& act.predicted_start >= now
            &&& k == 0 ==> act.predicted_start == max_of(
                now as int,
                entered_at(s, now as int, i) + pass.warm_up,
            )
        }),
{
    let pass = pass_of(s, s.entries[i].category.unwrap());
    let p = planned_start(s, i);
    let q = entered_at(s, now as int, i);
    assert(row_fits(s, now as int, i));
    assert(pass.all_fit(now as int, p, q));
    if k > 0 {
        assert(pass.act_fits(now as int, p, q, k - 1));
    }
    pass.lemma_unstarted_act(now as int, q, k);
}

} // verus!
