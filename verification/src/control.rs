//! Live control of the timeplan: one step forward, one step backward.
//!
//! Where the event stands is not stored; it is read off the timestamps of the
//! rows and acts each time.

use crate::auth::Auth;
use crate::clock::unix_now;
use crate::http_server::{HttpError, HttpErrorView, FORBIDDEN};
use crate::predict::{in_category, running};
use crate::search::{
    first_from, first_index, is_first, is_last, last_before, last_index, lemma_first_index,
    lemma_first_index_is, lemma_first_index_none, lemma_last_index, lemma_last_index_is,
    lemma_last_index_none, none_satisfies, position,
};
use crate::timeplan::{
    position_le, refers_to, text, Schedule, ScheduleView, ScheduledActView, TimeplanRowView,
};
use vstd::prelude::*;

verus! {

/// A row that has started and not ended.
pub open spec fn row_running() -> spec_fn(TimeplanRowView) -> bool {
    |r: TimeplanRowView| running(r.started_at, r.ended_at)
}

/// A row that has not started.
pub open spec fn row_not_started() -> spec_fn(TimeplanRowView) -> bool {
    |r: TimeplanRowView| r.started_at is None
}

/// A row that has ended.
pub open spec fn row_ended() -> spec_fn(TimeplanRowView) -> bool {
    |r: TimeplanRowView| r.ended_at is Some
}

/// An act of the category that has started and not ended.
pub open spec fn act_running_in(name: Seq<char>) -> spec_fn(ScheduledActView) -> bool {
    |a: ScheduledActView| a.category == Some(name) && running(a.started_at, a.ended_at)
}

/// An act of the category that has not started.
pub open spec fn act_not_started_in(name: Seq<char>) -> spec_fn(ScheduledActView) -> bool {
    |a: ScheduledActView| a.category == Some(name) && a.started_at is None
}

/// An act of the category that has ended.
pub open spec fn act_ended_in(name: Seq<char>) -> spec_fn(ScheduledActView) -> bool {
    |a: ScheduledActView| a.category == Some(name) && a.ended_at is Some
}

/// The running entry: the earliest row that has started and not ended.
pub open spec fn find_running_entry(s: ScheduleView) -> Option<int> {
    first_index(s.entries, row_running())
}

/// The running act of a category: the first in order that has started and
/// not ended.
pub open spec fn find_running_act(s: ScheduleView, name: Seq<char>) -> Option<int> {
    first_index(s.acts, act_running_in(name))
}

/// The next act of a category: the first in order that has not started.
pub open spec fn find_next_act(s: ScheduleView, name: Seq<char>) -> Option<int> {
    first_index(s.acts, act_not_started_in(name))
}

/// The next entry: the earliest row that has not started.
pub open spec fn find_next_entry(s: ScheduleView) -> Option<int> {
    first_index(s.entries, row_not_started())
}

/// The last act of a category, in order, that has ended.
pub open spec fn find_last_ended_act(s: ScheduleView, name: Seq<char>) -> Option<int> {
    last_index(s.acts, act_ended_in(name))
}

/// The last act of a category, in order.
pub open spec fn find_last_act(s: ScheduleView, name: Seq<char>) -> Option<int> {
    last_index(s.acts, in_category(name))
}

/// The latest row that has ended.
pub open spec fn find_last_ended_entry(s: ScheduleView) -> Option<int> {
    last_index(s.entries, row_ended())
}

impl ScheduleView {
    /// The schedule with another start of the row at `i`.
    pub open spec fn set_entry_started(self, i: int, t: Option<i64>) -> ScheduleView {
        ScheduleView {
            entries: self.entries.update(
                i,
                TimeplanRowView { started_at: t, ..self.entries[i] },
            ),
            ..self
        }
    }

    /// The schedule with another end of the row at `i`.
    pub open spec fn set_entry_ended(self, i: int, t: Option<i64>) -> ScheduleView {
        ScheduleView {
            entries: self.entries.update(i, TimeplanRowView { ended_at: t, ..self.entries[i] }),
            ..self
        }
    }

    /// The schedule with another start of the act at `k`.
    pub open spec fn set_act_started(self, k: int, t: Option<i64>) -> ScheduleView {
        ScheduleView {
            acts: self.acts.update(k, ScheduledActView { started_at: t, ..self.acts[k] }),
            ..self
        }
    }

    /// The schedule with another end of the act at `k`.
    pub open spec fn set_act_ended(self, k: int, t: Option<i64>) -> ScheduleView {
        ScheduleView {
            acts: self.acts.update(k, ScheduledActView { ended_at: t, ..self.acts[k] }),
            ..self
        }
    }
}

/// The schedule `t` has the rows and acts of `s` in the same places; only
/// timestamps differ.
pub open spec fn same_places(s: ScheduleView, t: ScheduleView) -> bool {
    &&& t.entries.len() == s.entries.len()
    &&& t.acts.len() == s.acts.len()
    &&& forall|i: int| 0 <= i < s.entries.len() ==> (#[trigger] t.entries[i]).id == s.entries[i].id
    &&& forall|k: int|
        0 <= k < s.acts.len() ==> (#[trigger] t.acts[k]).category == s.acts[k].category
            && t.acts[k].order == s.acts[k].order
}

proof fn lemma_same_places_in_sequence(s: ScheduleView, t: ScheduleView)
    requires
        s.in_sequence(),
        same_places(s, t),
    ensures
        t.in_sequence(),
{
    assert forall|i: int, j: int| 0 <= i < j < t.entries.len() implies (
    #[trigger] t.entries[i]).id < (#[trigger] t.entries[j]).id by {
        assert(s.entries[i].id < s.entries[j].id);
    }
    assert forall|k: int, m: int|
        0 <= k < m < t.acts.len() && (#[trigger] t.acts[k]).category is Some
            && t.acts[k].category == (#[trigger] t.acts[m]).category implies position_le(
        t.acts[k].order,
        t.acts[m].order,
    ) by {
        assert(position_le(s.acts[k].order, s.acts[m].order));
    }
}

proof fn lemma_setters_keep_places(s: ScheduleView, i: int, k: int, v: Option<i64>)
    ensures
        0 <= i < s.entries.len() ==> same_places(s, s.set_entry_started(i, v)) && same_places(
            s,
            s.set_entry_ended(i, v),
        ),
        0 <= k < s.acts.len() ==> same_places(s, s.set_act_started(k, v)) && same_places(
            s,
            s.set_act_ended(k, v),
        ),
        0 <= i < s.entries.len() && 0 <= k < s.acts.len() ==> same_places(
            s,
            s.set_act_ended(k, v).set_entry_ended(i, v),
        ) && same_places(s, s.set_entry_ended(i, v).set_act_ended(k, v)),
{
}

/// A step forward leaves the rows and acts in sequence.
pub proof fn lemma_forward_keeps_sequence(s: ScheduleView, now: i64)
    requires
        s.in_sequence(),
    ensures
        forward(s, now).in_sequence(),
{
    lemma_first_index(s.entries, row_running());
    lemma_first_index(s.entries, row_not_started());
    let i = match find_running_entry(s) {
        Some(i) => i,
        None => match find_next_entry(s) {
            Some(i) => i,
            None => 0,
        },
    };
    let k = match find_running_entry(s) {
        Some(i) => match s.entries[i].category {
            Some(name) => {
                lemma_first_index(s.acts, act_running_in(name));
                lemma_first_index(s.acts, act_not_started_in(name));
                match find_running_act(s, name) {
                    Some(k) => k,
                    None => match find_next_act(s, name) {
                        Some(k) => k,
                        None => 0,
                    },
                }
            },
            None => 0,
        },
        None => 0,
    };
    lemma_setters_keep_places(s, i, k, Some(now));
    assert(same_places(s, forward(s, now)));
    lemma_same_places_in_sequence(s, forward(s, now));
}

/// A step backward leaves the rows and acts in sequence.
pub proof fn lemma_backward_keeps_sequence(s: ScheduleView)
    requires
        s.in_sequence(),
    ensures
        backward(s).in_sequence(),
{
    lemma_first_index(s.entries, row_running());
    lemma_last_index(s.entries, row_ended());
    let i = match find_running_entry(s) {
        Some(i) => i,
        None => match find_last_ended_entry(s) {
            Some(i) => i,
            None => 0,
        },
    };
    let k = match find_running_entry(s) {
        Some(i) => match s.entries[i].category {
            Some(name) => {
                lemma_first_index(s.acts, act_running_in(name));
                lemma_last_index(s.acts, act_ended_in(name));
                match find_running_act(s, name) {
                    Some(k) => k,
                    None => match find_last_ended_act(s, name) {
                        Some(k) => k,
                        None => 0,
                    },
                }
            },
            None => 0,
        },
        None => match find_last_ended_entry(s) {
            Some(i) => match s.entries[i].category {
                Some(name) => {
                    lemma_last_index(s.acts, in_category(name));
                    match find_last_act(s, name) {
                        Some(k) => k,
                        None => 0,
                    }
                },
                None => 0,
            },
            None => 0,
        },
    };
    lemma_setters_keep_places(s, i, k, None);
    assert(same_places(s, backward(s)));
    lemma_same_places_in_sequence(s, backward(s));
}

/// In a schedule in sequence the first row with a property has the least
/// identifier of all rows with it, and the last the greatest.
pub proof fn lemma_rows_by_identifier(s: ScheduleView, q: spec_fn(TimeplanRowView) -> bool)
    requires
        s.rows_ascending(),
    ensures
        first_index(s.entries, q) matches Some(i) ==> forall|j: int|
            0 <= j < s.entries.len() && q(#[trigger] s.entries[j]) ==> s.entries[i].id
                <= s.entries[j].id,
        last_index(s.entries, q) matches Some(i) ==> forall|j: int|
            0 <= j < s.entries.len() && q(#[trigger] s.entries[j]) ==> s.entries[j].id
                <= s.entries[i].id,
{
    lemma_first_index(s.entries, q);
    lemma_last_index(s.entries, q);
}

/// In a schedule in sequence the first act of a category with a property has
/// the least position of all acts of the category with it, and the last the
/// greatest.
pub proof fn lemma_acts_by_position(
    s: ScheduleView,
    name: Seq<char>,
    q: spec_fn(ScheduledActView) -> bool,
)
    requires
        s.acts_ascending(),
        forall|a: ScheduledActView| #[trigger] q(a) ==> a.category == Some(name),
    ensures
        first_index(s.acts, q) matches Some(k) ==> forall|m: int|
            0 <= m < s.acts.len() && q(#[trigger] s.acts[m]) ==> position_le(
                s.acts[k].order,
                s.acts[m].order,
            ),
        last_index(s.acts, q) matches Some(k) ==> forall|m: int|
            0 <= m < s.acts.len() && q(#[trigger] s.acts[m]) ==> position_le(
                s.acts[m].order,
                s.acts[k].order,
            ),
{
    lemma_first_index(s.acts, q);
    lemma_last_index(s.acts, q);
    if first_index(s.acts, q) is Some {
        let k = first_index(s.acts, q).unwrap();
        assert forall|m: int| 0 <= m < s.acts.len() && q(#[trigger] s.acts[m]) implies position_le(
            s.acts[k].order,
            s.acts[m].order,
        ) by {
            assert(q(s.acts[k]));
        }
    }
    if last_index(s.acts, q) is Some {
        let k = last_index(s.acts, q).unwrap();
        assert forall|m: int| 0 <= m < s.acts.len() && q(#[trigger] s.acts[m]) implies position_le(
            s.acts[m].order,
            s.acts[k].order,
        ) by {
            assert(q(s.acts[k]));
        }
    }
}

/// One step forward at the time `now`.
///
/// With a running category entry: the running act ends, and if no act of the
/// category is left to start, the entry ends with it; without a running act
/// the next act starts. A running custom entry ends. With no running entry
/// the next entry starts.
pub open spec fn forward(s: ScheduleView, now: i64) -> ScheduleView {
    match find_running_entry(s) {
        Some(i) => match s.entries[i].category {
            Some(name) => match find_running_act(s, name) {
                Some(k) => if find_next_act(s, name) is None {
                    s.set_act_ended(k, Some(now)).set_entry_ended(i, Some(now))
                } else {
                    s.set_act_ended(k, Some(now))
                },
                None => match find_next_act(s, name) {
                    Some(k) => s.set_act_started(k, Some(now)),
                    None => s,
                },
            },
            None => s.set_entry_ended(i, Some(now)),
        },
        None => match find_next_entry(s) {
            Some(i) => s.set_entry_started(i, Some(now)),
            None => s,
        },
    }
}

/// One step backward.
///
/// With a running category entry: the running act goes back to not started;
/// without a running act the last ended act runs again, and if no act has
/// ended the entry goes back to not started. A running custom entry goes back
/// to not started. With no running entry the latest ended entry runs again,
/// and with it the last act of its category.
pub open spec fn backward(s: ScheduleView) -> ScheduleView {
    match find_running_entry(s) {
        Some(i) => match s.entries[i].category {
            Some(name) => match find_running_act(s, name) {
                Some(k) => s.set_act_started(k, None),
                None => match find_last_ended_act(s, name) {
                    Some(k) => s.set_act_ended(k, None),
                    None => s.set_entry_started(i, None),
                },
            },
            None => s.set_entry_started(i, None),
        },
        None => match find_last_ended_entry(s) {
            Some(i) => match s.entries[i].category {
                Some(name) => match find_last_act(s, name) {
                    Some(k) => s.set_entry_ended(i, None).set_act_ended(k, None),
                    None => s.set_entry_ended(i, None),
                },
                None => s.set_entry_ended(i, None),
            },
            None => s,
        },
    }
}

fn is_running(started_at: Option<i64>, ended_at: Option<i64>) -> (r: bool)
    ensures
        r == running(started_at, ended_at),
{
    started_at.is_some() && ended_at.is_none()
}

impl Schedule {
    /// The index of the running entry.
    pub fn running_entry(&self) -> (res: Option<usize>)
        ensures
            position(res) == find_running_entry(self@),
            res matches Some(i) ==> i < self.entries@.len(),
    {
        let mut i: usize = 0;
        while i < self.entries.len()
            invariant
                i <= self.entries.len(),
                find_running_entry(self@) == first_from(self@.entries, row_running(), i as int),
            decreases self.entries.len() - i,
        {
            if is_running(self.entries[i].started_at, self.entries[i].ended_at) {
                return Some(i);
            }
            i = i + 1;
        }
        None
    }

    /// The index of the next entry.
    pub fn next_entry(&self) -> (res: Option<usize>)
        ensures
            position(res) == find_next_entry(self@),
            res matches Some(i) ==> i < self.entries@.len(),
    {
        let mut i: usize = 0;
        while i < self.entries.len()
            invariant
                i <= self.entries.len(),
                find_next_entry(self@) == first_from(self@.entries, row_not_started(), i as int),
            decreases self.entries.len() - i,
        {
            if self.entries[i].started_at.is_none() {
                return Some(i);
            }
            i = i + 1;
        }
        None
    }

    /// The index of the latest entry that has ended.
    pub fn last_ended_entry(&self) -> (res: Option<usize>)
        ensures
            position(res) == find_last_ended_entry(self@),
            res matches Some(i) ==> i < self.entries@.len(),
    {
        let mut i: usize = self.entries.len();
        while i > 0
            invariant
                i <= self.entries.len(),
                find_last_ended_entry(self@) == last_before(self@.entries, row_ended(), i as int),
            decreases i,
        {
            if self.entries[i - 1].ended_at.is_some() {
                return Some(i - 1);
            }
            i = i - 1;
        }
        None
    }

    /// The index of the running act of a category.
    pub fn running_act(&self, name: &String) -> (res: Option<usize>)
        ensures
            position(res) == find_running_act(self@, name@),
            res matches Some(k) ==> k < self.acts@.len(),
    {
        let mut k: usize = 0;
        while k < self.acts.len()
            invariant
                k <= self.acts.len(),
                find_running_act(self@, name@) == first_from(
                    self@.acts,
                    act_running_in(name@),
                    k as int,
                ),
            decreases self.acts.len() - k,
        {
            let a = &self.acts[k];
            if refers_to(&a.category, name) && is_running(a.started_at, a.ended_at) {
                return Some(k);
            }
            k = k + 1;
        }
        None
    }

    /// The index of the next act of a category.
    pub fn next_act(&self, name: &String) -> (res: Option<usize>)
        ensures
            position(res) == find_next_act(self@, name@),
            res matches Some(k) ==> k < self.acts@.len(),
    {
        let mut k: usize = 0;
        while k < self.acts.len()
            invariant
                k <= self.acts.len(),
                find_next_act(self@, name@) == first_from(
                    self@.acts,
                    act_not_started_in(name@),
                    k as int,
                ),
            decreases self.acts.len() - k,
        {
            let a = &self.acts[k];
            if refers_to(&a.category, name) && a.started_at.is_none() {
                return Some(k);
            }
            k = k + 1;
        }
        None
    }

    /// The index of the last act of a category that has ended.
    pub fn last_ended_act(&self, name: &String) -> (res: Option<usize>)
        ensures
            position(res) == find_last_ended_act(self@, name@),
            res matches Some(k) ==> k < self.acts@.len(),
    {
        let mut k: usize = self.acts.len();
        while k > 0
            invariant
                k <= self.acts.len(),
                find_last_ended_act(self@, name@) == last_before(
                    self@.acts,
                    act_ended_in(name@),
                    k as int,
                ),
            decreases k,
        {
            let a = &self.acts[k - 1];
            if refers_to(&a.category, name) && a.ended_at.is_some() {
                return Some(k - 1);
            }
            k = k - 1;
        }
        None
    }

    /// The index of the last act of a category.
    pub fn last_act(&self, name: &String) -> (res: Option<usize>)
        ensures
            position(res) == find_last_act(self@, name@),
            res matches Some(k) ==> k < self.acts@.len(),
    {
        let mut k: usize = self.acts.len();
        while k > 0
            invariant
                k <= self.acts.len(),
                find_last_act(self@, name@) == last_before(
                    self@.acts,
                    in_category(name@),
                    k as int,
                ),
            decreases k,
        {
            if refers_to(&self.acts[k - 1].category, name) {
                return Some(k - 1);
            }
            k = k - 1;
        }
        None
    }
}

impl Schedule {
    fn put_entry_started(&mut self, i: usize, t: Option<i64>)
        requires
            i < old(self).entries@.len(),
        ensures
            final(self)@ == old(self)@.set_entry_started(i as int, t),
    {
        self.entries[i].started_at = t;
        assert(self@.entries =~= old(self)@.set_entry_started(i as int, t).entries);
    }

    fn put_entry_ended(&mut self, i: usize, t: Option<i64>)
        requires
            i < old(self).entries@.len(),
        ensures
            final(self)@ == old(self)@.set_entry_ended(i as int, t),
    {
        self.entries[i].ended_at = t;
        assert(self@.entries =~= old(self)@.set_entry_ended(i as int, t).entries);
    }

    fn put_act_started(&mut self, k: usize, t: Option<i64>)
        requires
            k < old(self).acts@.len(),
        ensures
            final(self)@ == old(self)@.set_act_started(k as int, t),
    {
        self.acts[k].started_at = t;
        assert(self@.acts =~= old(self)@.set_act_started(k as int, t).acts);
    }

    fn put_act_ended(&mut self, k: usize, t: Option<i64>)
        requires
            k < old(self).acts@.len(),
        ensures
            final(self)@ == old(self)@.set_act_ended(k as int, t),
    {
        self.acts[k].ended_at = t;
        assert(self@.acts =~= old(self)@.set_act_ended(k as int, t).acts);
    }
}

/// The category that the row at `i` names.
fn category_at(s: &Schedule, i: usize) -> (res: Option<String>)
    requires
        i < s.entries@.len(),
    ensures
        text(res) == s@.entries[i as int].category,
{
    match &s.entries[i].category {
        Some(name) => Some(name.clone()),
        None => None,
    }
}

/// Advances the live event by one step at the time `now`. The schedule has
/// to list its rows and acts in sequence, for the earliest row to be the
/// first and the next act of a category the first of its acts.
pub fn advance_timeplan(s: &mut Schedule, now: i64)
    requires
        old(s)@.in_sequence(),
    ensures
        final(s)@ == forward(old(s)@, now),
        final(s)@.in_sequence(),
{
    proof {
        lemma_forward_keeps_sequence(s@, now);
    }
    match s.running_entry() {
        Some(i) => match category_at(s, i) {
            Some(name) => match s.running_act(&name) {
                Some(k) => {
                    let complete = s.next_act(&name).is_none();
                    s.put_act_ended(k, Some(now));
                    if complete {
                        s.put_entry_ended(i, Some(now));
                    }
                },
                None => match s.next_act(&name) {
                    Some(k) => s.put_act_started(k, Some(now)),
                    None => {},
                },
            },
            None => s.put_entry_ended(i, Some(now)),
        },
        None => match s.next_entry() {
            Some(i) => s.put_entry_started(i, Some(now)),
            None => {},
        },
    }
}

/// Rewinds the live event by one step. The schedule has to list its rows and
/// acts in sequence.
pub fn rewind_timeplan(s: &mut Schedule)
    requires
        old(s)@.in_sequence(),
    ensures
        final(s)@ == backward(old(s)@),
        final(s)@.in_sequence(),
{
    proof {
        lemma_backward_keeps_sequence(s@);
    }
    match s.running_entry() {
        Some(i) => match category_at(s, i) {
            Some(name) => match s.running_act(&name) {
                Some(k) => s.put_act_started(k, None),
                None => match s.last_ended_act(&name) {
                    Some(k) => s.put_act_ended(k, None),
                    None => s.put_entry_started(i, None),
                },
            },
            None => s.put_entry_started(i, None),
        },
        None => match s.last_ended_entry() {
            Some(i) => {
                let category = category_at(s, i);
                s.put_entry_ended(i, None);
                match category {
                    Some(name) => match s.last_act(&name) {
                        Some(k) => s.put_act_ended(k, None),
                        None => {},
                    },
                    None => {},
                }
            },
            None => {},
        },
    }
}

/// The answer to a step forward.
#[derive(Clone, Debug, PartialEq, Eq)]
pub struct SetTimeplanForwardResponse {}

/// The answer to a step backward.
#[derive(Clone, Debug, PartialEq, Eq)]
pub struct SetTimeplanBackwardResponse {}

/// How a step on behalf of a caller ends: for anyone but an administrator it
/// is forbidden, a schedule that is not in sequence is refused as an internal
/// error, and in both cases nothing moves; else the schedule is `moved`.
pub open spec fn step_outcome<T>(
    before: ScheduleView,
    after: ScheduleView,
    res: Result<T, HttpError>,
    is_admin: bool,
    moved: ScheduleView,
) -> bool {
    if !is_admin {
        res matches Err(e) && e@ == HttpErrorView::StatusCode(FORBIDDEN) && after == before
    } else if !before.in_sequence() {
        res matches Err(e) && e@ == HttpErrorView::InternalServerError && after == before
    } else {
        res is Ok && after == moved
    }
}

/// On behalf of `auth`, advances the live event by one step at the time
/// `now`. Only an administrator may, and only a schedule in sequence is
/// moved; otherwise nothing moves.
pub fn timeplan_forward_at(s: &mut Schedule, auth: &Auth, now: i64) -> (res: Result<
    SetTimeplanForwardResponse,
    HttpError,
>)
    ensures
        step_outcome(old(s)@, final(s)@, res, auth.is_admin, forward(old(s)@, now)),
{
    if !auth.is_admin() {
        return Err(HttpError::StatusCode(FORBIDDEN));
    }
    if !s.is_in_sequence() {
        return Err(HttpError::InternalServerError);
    }
    advance_timeplan(s, now);
    Ok(SetTimeplanForwardResponse {  })
}

/// On behalf of `auth`, advances the live event by one step at the current
/// time of the system clock.
pub fn timeplan_forward(s: &mut Schedule, auth: &Auth) -> (res: Result<
    SetTimeplanForwardResponse,
    HttpError,
>)
    ensures
        exists|now: i64| #[trigger]
            step_outcome(old(s)@, final(s)@, res, auth.is_admin, forward(old(s)@, now)),
{
    let now = unix_now();
    let res = timeplan_forward_at(s, auth, now);
    assert(step_outcome(old(s)@, s@, res, auth.is_admin, forward(old(s)@, now)));
    res
}

/// On behalf of `auth`, rewinds the live event by one step. Only an
/// administrator may, and only a schedule in sequence is moved; otherwise
/// nothing moves.
pub fn timeplan_backward(s: &mut Schedule, auth: &Auth) -> (res: Result<
    SetTimeplanBackwardResponse,
    HttpError,
>)
    ensures
        step_outcome(old(s)@, final(s)@, res, auth.is_admin, backward(old(s)@)),
{
    if !auth.is_admin() {
        return Err(HttpError::StatusCode(FORBIDDEN));
    }
    if !s.is_in_sequence() {
        return Err(HttpError::InternalServerError);
    }
    rewind_timeplan(s);
    Ok(SetTimeplanBackwardResponse {  })
}

/// The timestamps of the schedule are those of an event that was only ever
/// moved step by step: nothing has an end without a start, the rows are ended,
/// running and not started in this order, so are the acts of each category,
/// and the acts of a category whose row has not started have not started
/// either.
pub open spec fn orderly(s: ScheduleView) -> bool {
    &&& forall|i: int|
        0 <= i < s.entries.len() && (#[trigger] s.entries[i]).ended_at is Some
            ==> s.entries[i].started_at is Some
    &&& forall|k: int|
        0 <= k < s.acts.len() && (#[trigger] s.acts[k]).ended_at is Some
            ==> s.acts[k].started_at is Some
    &&& forall|i: int, j: int|
        0 <= i < j < s.entries.len() && (#[trigger] s.entries[j]).started_at is Some ==> (
        #[trigger] s.entries[i]).ended_at is Some
    &&& forall|k: int, m: int|
        0 <= k < m < s.acts.len() && (#[trigger] s.acts[k]).category is Some && s.acts[k].category
            == (#[trigger] s.acts[m]).category && s.acts[m].started_at is Some
            ==> s.acts[k].ended_at is Some
    &&& forall|i: int, k: int|
        0 <= i < s.entries.len() && 0 <= k < s.acts.len() && (
        #[trigger] s.entries[i]).category is Some && s.entries[i].category == (
        #[trigger] s.acts[k]).category && s.entries[i].started_at is None
            ==> s.acts[k].started_at is None
}

/// No two rows of the timeplan refer to the same category.
pub open spec fn single_reference(s: ScheduleView) -> bool {
    forall|i: int, j: int|
        0 <= i < s.entries.len() && 0 <= j < s.entries.len() && (
        #[trigger] s.entries[i]).category is Some && s.entries[i].category == (
        #[trigger] s.entries[j]).category ==> i == j
}

/// A step forward keeps an orderly schedule orderly, provided that no two
/// rows refer to one category.
pub proof fn lemma_forward_keeps_order(s: ScheduleView, now: i64)
    requires
        orderly(s),
        single_reference(s),
    ensures
        orderly(forward(s, now)),
        single_reference(forward(s, now)),
{
    let t = forward(s, now);
    lemma_first_index(s.entries, row_running());
    lemma_first_index(s.entries, row_not_started());
    match find_running_entry(s) {
        Some(i) => {
            match s.entries[i].category {
                Some(name) => {
                    lemma_first_index(s.acts, act_running_in(name));
                    lemma_first_index(s.acts, act_not_started_in(name));
                    match find_running_act(s, name) {
                        Some(k) => {},
                        None => {
                            match find_next_act(s, name) {
                                Some(k) => {
                                    assert forall|a: int, m: int|
                                        0 <= a < m < t.acts.len() && (
                                        #[trigger] t.acts[a]).category is Some
                                            && t.acts[a].category == (
                                        #[trigger] t.acts[m]).category
                                            && t.acts[m].started_at is Some implies t.acts[a].ended_at is Some by {
                                        if m == k {
                                            assert(!act_not_started_in(name)(s.acts[a]));
                                            assert(!act_running_in(name)(s.acts[a]));
                                        } else if a == k {
                                            assert(s.acts[m].started_at is Some);
                                            assert(s.acts[k].ended_at is Some);
                                        } else {
                                            assert(s.acts[m].started_at is Some);
                                        }
                                    }
                                    assert forall|r: int, a: int|
                                        0 <= r < t.entries.len() && 0 <= a < t.acts.len() && (
                                        #[trigger] t.entries[r]).category is Some
                                            && t.entries[r].category == (
                                        #[trigger] t.acts[a]).category
                                            && t.entries[r].started_at is None implies t.acts[a].started_at is None by {
                                        if a == k {
                                            assert(s.entries[r].category == s.entries[i].category);
                                        }
                                    }
                                },
                                None => {},
                            }
                        },
                    }
                },
                None => {},
            }
        },
        None => {
            match find_next_entry(s) {
                Some(i) => {
                    assert forall|a: int, b: int|
                        0 <= a < b < t.entries.len() && (
                        #[trigger] t.entries[b]).started_at is Some implies (
                    #[trigger] t.entries[a]).ended_at is Some by {
                        if b == i {
                            assert(!row_not_started()(s.entries[a]));
                            assert(!row_running()(s.entries[a]));
                        } else if a == i {
                            assert(s.entries[b].started_at is Some);
                            assert(s.entries[i].ended_at is Some);
                        } else {
                            assert(s.entries[b].started_at is Some);
                        }
                    }
                },
                None => {},
            }
        },
    }
}

/// A step backward keeps an orderly schedule orderly.
pub proof fn lemma_backward_keeps_order(s: ScheduleView)
    requires
        orderly(s),
    ensures
        orderly(backward(s)),
{
    let t = backward(s);
    lemma_first_index(s.entries, row_running());
    lemma_last_index(s.entries, row_ended());
    match find_running_entry(s) {
        Some(i) => {
            match s.entries[i].category {
                Some(name) => {
                    lemma_first_index(s.acts, act_running_in(name));
                    lemma_last_index(s.acts, act_ended_in(name));
                    match find_running_act(s, name) {
                        Some(k) => {
                            assert forall|a: int, m: int|
                                0 <= a < m < t.acts.len() && (
                                #[trigger] t.acts[a]).category is Some && t.acts[a].category == (
                                #[trigger] t.acts[m]).category
                                    && t.acts[m].started_at is Some implies t.acts[a].ended_at is Some by {
                                assert(s.acts[m].started_at is Some);
                                assert(s.acts[a].ended_at is Some);
                            }
                        },
                        None => {
                            match find_last_ended_act(s, name) {
                                Some(k) => {
                                    assert forall|a: int, m: int|
                                        0 <= a < m < t.acts.len() && (
                                        #[trigger] t.acts[a]).category is Some
                                            && t.acts[a].category == (
                                        #[trigger] t.acts[m]).category
                                            && t.acts[m].started_at is Some implies t.acts[a].ended_at is Some by {
                                        assert(s.acts[m].started_at is Some);
                                        assert(s.acts[a].ended_at is Some);
                                        if a == k {
                                            assert(!act_running_in(name)(s.acts[m]));
                                            assert(!act_ended_in(name)(s.acts[m]));
                                        }
                                    }
                                },
                                None => {
                                    assert forall|r: int, a: int|
                                        0 <= r < t.entries.len() && 0 <= a < t.acts.len() && (
                                        #[trigger] t.entries[r]).category is Some
                                            && t.entries[r].category == (
                                        #[trigger] t.acts[a]).category
                                            && t.entries[r].started_at is None implies t.acts[a].started_at is None by {
                                        if r == i {
                                            assert(!act_running_in(name)(s.acts[a]));
                                            assert(!act_ended_in(name)(s.acts[a]));
                                        }
                                    }
                                    assert forall|a: int, b: int|
                                        0 <= a < b < t.entries.len() && (
                                        #[trigger] t.entries[b]).started_at is Some implies (
                                    #[trigger] t.entries[a]).ended_at is Some by {
                                        assert(s.entries[b].started_at is Some);
                                        assert(s.entries[a].ended_at is Some);
                                    }
                                },
                            }
                        },
                    }
                },
                None => {
                    assert forall|a: int, b: int|
                        0 <= a < b < t.entries.len() && (
                        #[trigger] t.entries[b]).started_at is Some implies (
                    #[trigger] t.entries[a]).ended_at is Some by {
                        assert(s.entries[b].started_at is Some);
                        assert(s.entries[a].ended_at is Some);
                    }
                },
            }
        },
        None => {
            match find_last_ended_entry(s) {
                Some(i) => {
                    assert forall|a: int, b: int|
                        0 <= a < b < t.entries.len() && (
                        #[trigger] t.entries[b]).started_at is Some implies (
                    #[trigger] t.entries[a]).ended_at is Some by {
                        assert(s.entries[b].started_at is Some);
                        assert(s.entries[a].ended_at is Some);
                        if a == i {
                            assert(!row_running()(s.entries[b]));
                            assert(!row_ended()(s.entries[b]));
                        }
                    }
                    match s.entries[i].category {
                        Some(name) => {
                            lemma_last_index(s.acts, in_category(name));
                            match find_last_act(s, name) {
                                Some(k) => {
                                    assert forall|a: int, m: int|
                                        0 <= a < m < t.acts.len() && (
                                        #[trigger] t.acts[a]).category is Some
                                            && t.acts[a].category == (
                                        #[trigger] t.acts[m]).category
                                            && t.acts[m].started_at is Some implies t.acts[a].ended_at is Some by {
                                        assert(s.acts[m].started_at is Some);
                                        assert(s.acts[a].ended_at is Some);
                                        if a == k {
                                            assert(!in_category(name)(s.acts[m]));
                                        }
                                    }
                                },
                                None => {},
                            }
                        },
                        None => {},
                    }
                },
                None => {},
            }
        },
    }
}

/// A schedule in which nothing has started is orderly.
pub proof fn lemma_fresh_schedule_is_orderly(s: ScheduleView)
    requires
        forall|i: int|
            0 <= i < s.entries.len() ==> (#[trigger] s.entries[i]).started_at is None
                && s.entries[i].ended_at is None,
        forall|k: int|
            0 <= k < s.acts.len() ==> (#[trigger] s.acts[k]).started_at is None
                && s.acts[k].ended_at is None,
    ensures
        orderly(s),
{
}

/// A step forward finds nothing to move: a category entry is running with no
/// act running and none left to start, or no entry is running and none is
/// left to start.
pub open spec fn at_rest(s: ScheduleView) -> bool {
    match find_running_entry(s) {
        Some(i) => match s.entries[i].category {
            Some(name) => find_running_act(s, name) is None && find_next_act(s, name) is None,
            None => false,
        },
        None => find_next_entry(s) is None,
    }
}

/// A step forward leaves a schedule at rest as it is.
pub proof fn lemma_forward_at_rest(s: ScheduleView, now: i64)
    requires
        at_rest(s),
    ensures
        forward(s, now) == s,
{
}

/// A step forward followed by a step backward brings an orderly schedule that
/// is not at rest back to where it was: every row and every act is as before.
pub proof fn lemma_forward_then_backward(s: ScheduleView, now: i64)
    requires
        orderly(s),
        !at_rest(s),
    ensures
        backward(forward(s, now)) == s,
{
    let t = forward(s, now);
    lemma_first_index(s.entries, row_running());
    match find_running_entry(s) {
        Some(i) => {
            match s.entries[i].category {
                Some(name) => {
                    lemma_first_index(s.acts, act_running_in(name));
                    lemma_first_index(s.acts, act_not_started_in(name));
                    match find_running_act(s, name) {
                        Some(k) => {
                            if find_next_act(s, name) is None {
                                // the act and the entry ended together
                                assert(none_satisfies(t.entries, row_running())) by {
                                    assert forall|j: int| 0 <= j < t.entries.len() implies !row_running()(
                                        #[trigger] t.entries[j],
                                    ) by {
                                        if j != i {
                                            assert(t.entries[j] == s.entries[j]);
                                            if j > i && s.entries[j].started_at is Some {
                                                assert(s.entries[i].ended_at is Some);
                                            }
                                        }
                                    }
                                }
                                lemma_first_index_none(t.entries, row_running());
                                assert(is_last(t.entries, row_ended(), i)) by {
                                    assert forall|j: int| i < j < t.entries.len() implies !row_ended()(
                                        #[trigger] t.entries[j],
                                    ) by {
                                        assert(t.entries[j] == s.entries[j]);
                                        if s.entries[j].started_at is Some {
                                            assert(s.entries[i].ended_at is Some);
                                        }
                                    }
                                }
                                lemma_last_index_is(t.entries, row_ended(), i);
                                assert(is_last(t.acts, in_category(name), k)) by {
                                    assert forall|m: int| k < m < t.acts.len() implies !in_category(
                                        name,
                                    )(#[trigger] t.acts[m]) by {
                                        assert(t.acts[m] == s.acts[m]);
                                        if s.acts[m].category == Some(name) {
                                            assert(!act_not_started_in(name)(s.acts[m]));
                                            assert(s.acts[k].ended_at is Some);
                                        }
                                    }
                                }
                                lemma_last_index_is(t.acts, in_category(name), k);
                                assert(backward(t).entries =~= s.entries);
                                assert(backward(t).acts =~= s.acts);
                            } else {
                                // only the act ended
                                assert(is_first(t.entries, row_running(), i));
                                lemma_first_index_is(t.entries, row_running(), i);
                                assert(none_satisfies(t.acts, act_running_in(name))) by {
                                    assert forall|m: int| 0 <= m < t.acts.len() implies !act_running_in(
                                        name,
                                    )(#[trigger] t.acts[m]) by {
                                        if m != k {
                                            assert(t.acts[m] == s.acts[m]);
                                            if m > k && act_running_in(name)(s.acts[m]) {
                                                assert(s.acts[k].ended_at is Some);
                                            }
                                        }
                                    }
                                }
                                lemma_first_index_none(t.acts, act_running_in(name));
                                assert(is_last(t.acts, act_ended_in(name), k)) by {
                                    assert forall|m: int| k < m < t.acts.len() implies !act_ended_in(
                                        name,
                                    )(#[trigger] t.acts[m]) by {
                                        assert(t.acts[m] == s.acts[m]);
                                        if act_ended_in(name)(s.acts[m]) {
                                            assert(s.acts[m].started_at is Some);
                                            assert(s.acts[k].ended_at is Some);
                                        }
                                    }
                                }
                                lemma_last_index_is(t.acts, act_ended_in(name), k);
                                assert(backward(t).acts =~= s.acts);
                            }
                        },
                        None => {
                            // the next act started
                            let k = find_next_act(s, name).unwrap();
                            assert(is_first(t.entries, row_running(), i));
                            lemma_first_index_is(t.entries, row_running(), i);
                            assert(is_first(t.acts, act_running_in(name), k)) by {
                                assert forall|m: int| 0 <= m < k implies !act_running_in(name)(
                                    #[trigger] t.acts[m],
                                ) by {
                                    assert(t.acts[m] == s.acts[m]);
                                }
                            }
                            lemma_first_index_is(t.acts, act_running_in(name), k);
                            assert(backward(t).acts =~= s.acts);
                        },
                    }
                },
                None => {
                    // the custom entry ended
                    assert(none_satisfies(t.entries, row_running())) by {
                        assert forall|j: int| 0 <= j < t.entries.len() implies !row_running()(
                            #[trigger] t.entries[j],
                        ) by {
                            if j != i {
                                assert(t.entries[j] == s.entries[j]);
                                if j > i && s.entries[j].started_at is Some {
                                    assert(s.entries[i].ended_at is Some);
                                }
                            }
                        }
                    }
                    lemma_first_index_none(t.entries, row_running());
                    assert(is_last(t.entries, row_ended(), i)) by {
                        assert forall|j: int| i < j < t.entries.len() implies !row_ended()(
                            #[trigger] t.entries[j],
                        ) by {
                            assert(t.entries[j] == s.entries[j]);
                            if s.entries[j].started_at is Some {
                                assert(s.entries[i].ended_at is Some);
                            }
                        }
                    }
                    lemma_last_index_is(t.entries, row_ended(), i);
                    assert(backward(t).entries =~= s.entries);
                },
            }
        },
        None => {
            // the next entry started
            lemma_first_index(s.entries, row_not_started());
            let i = find_next_entry(s).unwrap();
            assert(is_first(t.entries, row_running(), i)) by {
                assert forall|j: int| 0 <= j < i implies !row_running()(#[trigger] t.entries[j]) by {
                    assert(t.entries[j] == s.entries[j]);
                }
            }
            lemma_first_index_is(t.entries, row_running(), i);
            match s.entries[i].category {
                Some(name) => {
                    assert(none_satisfies(t.acts, act_running_in(name))) by {
                        assert forall|m: int| 0 <= m < t.acts.len() implies !act_running_in(name)(
                            #[trigger] t.acts[m],
                        ) by {
                            if s.acts[m].category == Some(name) {
                                assert(s.entries[i].category == s.acts[m].category);
                            }
                        }
                    }
                    lemma_first_index_none(t.acts, act_running_in(name));
                    assert(none_satisfies(t.acts, act_ended_in(name))) by {
                        assert forall|m: int| 0 <= m < t.acts.len() implies !act_ended_in(name)(
                            #[trigger] t.acts[m],
                        ) by {
                            if s.acts[m].category == Some(name) {
                                assert(s.entries[i].category == s.acts[m].category);
                            }
                        }
                    }
                    lemma_last_index_none(t.acts, act_ended_in(name));
                },
                None => {},
            }
            assert(backward(t).entries =~= s.entries);
        },
    }
}

/// When the running act of a category ends and no act of the category is left
/// to start, the entry of the category ends in the same step.
pub proof fn lemma_category_completes(s: ScheduleView, now: i64, i: int, name: Seq<char>, k: int)
    requires
        find_running_entry(s) == Some(i),
        s.entries[i].category == Some(name),
        find_running_act(s, name) == Some(k),
        find_next_act(s, name) is None,
    ensures
        forward(s, now).acts[k].ended_at == Some(now),
        forward(s, now).entries[i].ended_at == Some(now),
        forward(s, now).entries[i].started_at == s.entries[i].started_at,
        forall|m: int|
            0 <= m < s.acts.len() && (#[trigger] forward(s, now).acts[m]).category == Some(name)
                ==> forward(s, now).acts[m].started_at is Some,
{
    lemma_first_index(s.entries, row_running());
    lemma_first_index(s.acts, act_running_in(name));
    lemma_first_index(s.acts, act_not_started_in(name));
    let t = forward(s, now);
    assert forall|m: int| 0 <= m < s.acts.len() && (#[trigger] t.acts[m]).category == Some(
        name,
    ) implies t.acts[m].started_at is Some by {
        if m != k {
            assert(t.acts[m] == s.acts[m]);
            assert(!act_not_started_in(name)(s.acts[m]));
        }
    }
}

/// While acts of the running category are left to start, ending the running
/// act leaves the entry running.
pub proof fn lemma_category_continues(s: ScheduleView, now: i64, i: int, name: Seq<char>, k: int)
    requires
        find_running_entry(s) == Some(i),
        s.entries[i].category == Some(name),
        find_running_act(s, name) == Some(k),
        find_next_act(s, name) is Some,
    ensures
        forward(s, now).acts[k].ended_at == Some(now),
        forward(s, now).entries == s.entries,
{
    lemma_first_index(s.acts, act_running_in(name));
}

} // verus!
