use nrw_freestyle_cup_registration::http_server::HttpError;
use nrw_freestyle_cup_registration::predict::{
    check_integrity, predict_timeplan, predict_timeplan_at, project_timeplan, TimeplanError,
};
use nrw_freestyle_cup_registration::timeplan::{
    item_status, Category, Schedule, ScheduledAct, Timeplan, TimeplanEntry, TimeplanItemStatus,
    TimeplanRow,
};

const T0: i64 = 1_750_000_000;

fn plan_category(name: &str, warm_up: i64, act: i64, judge: i64) -> Category {
    Category {
        name: name.to_string(),
        description: Some(format!("{name} description")),
        from_birthday: "2000-01-01".to_string(),
        to_birthday: "2010-12-31".to_string(),
        is_pair: false,
        is_sonderpokal: false,
        is_single_male: false,
        order: Some(1),
        einfahrzeit_seconds: warm_up,
        act_duration_seconds: act,
        judge_duration_seconds: judge,
    }
}

fn plan_act(id: u128, category: &str, started_at: Option<i64>, ended_at: Option<i64>) -> ScheduledAct {
    ScheduledAct {
        id,
        name: format!("act {id}"),
        category: Some(category.to_string()),
        order: Some(id as i64),
        started_at,
        ended_at,
    }
}

fn category_row(id: i64, earliest: Option<i64>, category: &str) -> TimeplanRow {
    TimeplanRow {
        id,
        earliest_start_time: earliest,
        duration_seconds: None,
        label: None,
        category: Some(category.to_string()),
        started_at: None,
        ended_at: None,
    }
}

fn custom_row(id: i64, earliest: Option<i64>, label: &str, duration: i64) -> TimeplanRow {
    TimeplanRow {
        id,
        earliest_start_time: earliest,
        duration_seconds: Some(duration),
        label: Some(label.to_string()),
        category: None,
        started_at: None,
        ended_at: None,
    }
}

fn three_act_schedule() -> Schedule {
    Schedule {
        entries: vec![category_row(1, Some(T0), "U15")],
        categories: vec![plan_category("U15", 120, 60, 30)],
        acts: vec![
            plan_act(1, "U15", None, None),
            plan_act(2, "U15", None, None),
            plan_act(3, "U15", None, None),
        ],
    }
}

fn acts_of_item(plan: &Timeplan, item: usize) -> &Vec<nrw_freestyle_cup_registration::timeplan::TimeplanAct> {
    match &plan.items[item].timeplan_entry {
        TimeplanEntry::Category { acts, .. } => acts,
        TimeplanEntry::Custom { .. } => panic!("not a category"),
    }
}

#[test]
fn one_category_before_any_act_starts() {
    let plan = project_timeplan(&three_act_schedule(), T0 - 1000).unwrap();
    assert_eq!(plan.offset, 0);
    assert_eq!(plan.items.len(), 1);
    let item = &plan.items[0];
    assert_eq!(item.status, TimeplanItemStatus::Planned);
    assert_eq!(item.planned_start, T0);
    assert_eq!(item.planned_duration, 120 + 3 * 90);
    assert_eq!(item.planned_end, T0 + 390);
    assert_eq!(item.predicted_start, T0);
    assert_eq!(item.predicted_end, T0 + 390);
    let acts = acts_of_item(&plan, 0);
    assert_eq!(acts.len(), 3);
    assert_eq!(acts[0].predicted_start, T0 + 120);
    assert_eq!(acts[0].predicted_end, T0 + 120 + 60);
    assert_eq!(acts[0].planned_start, T0 + 120);
    assert_eq!(acts[0].planned_end, T0 + 180);
    assert_eq!(acts[1].planned_start, T0 + 120 + 90);
    assert_eq!(acts[2].planned_start, T0 + 120 + 2 * 90);
    assert_eq!(acts[2].predicted_start, T0 + 120 + 2 * 90);
    assert_eq!(acts[2].status, TimeplanItemStatus::Planned);
    match &item.timeplan_entry {
        TimeplanEntry::Category {
            name,
            description,
            duration_seconds,
            order,
            einfahrzeit_seconds,
            act_duration_seconds,
            judge_duration_seconds,
            ..
        } => {
            assert_eq!(name, "U15");
            assert_eq!(description, "U15 description");
            assert_eq!(*duration_seconds, 390);
            assert_eq!(*order, 1);
            assert_eq!(*einfahrzeit_seconds, 120);
            assert_eq!(*act_duration_seconds, 60);
            assert_eq!(*judge_duration_seconds, 30);
        }
        TimeplanEntry::Custom { .. } => panic!("not a category"),
    }
}

#[test]
fn prediction_is_never_before_now() {
    // the warm-up is over: the first act is predicted now
    let now = T0 + 1000;
    let plan = project_timeplan(&three_act_schedule(), now).unwrap();
    assert_eq!(plan.offset, 1000);
    assert_eq!(plan.items[0].planned_start, T0);
    assert_eq!(plan.items[0].predicted_start, now);
    assert_eq!(plan.items[0].predicted_end, now + 390);
    let acts = acts_of_item(&plan, 0);
    assert_eq!(acts[0].planned_start, T0 + 120);
    assert_eq!(acts[0].predicted_start, now);
    assert_eq!(acts[0].predicted_end, now + 60);
    assert_eq!(acts[1].predicted_start, now + 90);
    assert_eq!(acts[2].predicted_start, now + 180);
}

#[test]
fn first_act_waits_for_the_end_of_the_warm_up() {
    // the warm-up has begun and is not over
    let now = T0 + 50;
    let plan = project_timeplan(&three_act_schedule(), now).unwrap();
    assert_eq!(plan.items[0].predicted_start, now);
    let acts = acts_of_item(&plan, 0);
    assert_eq!(acts[0].predicted_start, T0 + 120);
    assert_eq!(acts[1].predicted_start, T0 + 210);
    assert_eq!(acts[2].predicted_start, T0 + 300);
}

#[test]
fn unstarted_block_after_an_overrun_is_predicted_now() {
    let mut opening = custom_row(1, Some(T0), "Opening", 600);
    opening.started_at = Some(T0);
    let s = Schedule {
        entries: vec![opening, custom_row(2, None, "Break", 300), custom_row(3, None, "Talk", 60)],
        categories: vec![],
        acts: vec![],
    };
    // the opening should be over for an hour
    let now = T0 + 4200;
    let plan = project_timeplan(&s, now).unwrap();
    assert_eq!(plan.items[0].predicted_start, T0);
    assert_eq!(plan.items[0].predicted_end, T0 + 600);
    assert_eq!(plan.items[1].predicted_start, now);
    assert_eq!(plan.items[1].predicted_end, now + 300);
    assert_eq!(plan.items[2].predicted_start, now + 300);
    assert_eq!(plan.items[2].predicted_end, now + 360);
    assert_eq!(plan.items[1].planned_start, T0 + 600);
}

#[test]
fn started_row_without_earliest_start_is_predicted_at_its_start() {
    let mut second = custom_row(2, None, "Break", 300);
    second.started_at = Some(T0 + 500);
    let s = Schedule {
        entries: vec![custom_row(1, Some(T0), "Opening", 600), second, custom_row(3, None, "Talk", 60)],
        categories: vec![],
        acts: vec![],
    };
    let plan = project_timeplan(&s, T0 + 510).unwrap();
    assert_eq!(plan.items[1].predicted_start, T0 + 500);
    assert_eq!(plan.items[1].predicted_end, T0 + 800);
    assert_eq!(plan.items[2].predicted_start, T0 + 800);
    assert_eq!(plan.offset, -100);
}

#[test]
fn schedule_out_of_sequence_is_refused() {
    let s = Schedule {
        entries: vec![custom_row(2, Some(T0), "Opening", 600), custom_row(1, None, "Break", 300)],
        categories: vec![],
        acts: vec![],
    };
    assert!(!s.is_in_sequence());
    assert_eq!(project_timeplan(&s, T0), Err(TimeplanError::OutOfSequence));
    assert_eq!(predict_timeplan_at(&s, T0), Err(HttpError::InternalServerError));
    let s = Schedule {
        entries: vec![custom_row(1, Some(T0), "Opening", 600), custom_row(1, None, "Break", 300)],
        categories: vec![],
        acts: vec![],
    };
    assert_eq!(project_timeplan(&s, T0), Err(TimeplanError::OutOfSequence));
    let mut s = three_act_schedule();
    s.acts.swap(0, 2);
    assert!(!s.is_in_sequence());
    assert_eq!(project_timeplan(&s, T0), Err(TimeplanError::OutOfSequence));
    // an act without a position comes first
    let mut s = three_act_schedule();
    s.acts[0].order = None;
    assert!(s.is_in_sequence());
    s.acts[0].order = Some(1);
    s.acts[1].order = None;
    assert!(!s.is_in_sequence());
    // acts of different categories do not compare
    let mut s = three_act_schedule();
    s.acts.insert(0, plan_act(9, "O15", None, None));
    assert!(s.is_in_sequence());
    assert!(three_act_schedule().is_in_sequence());
}

#[test]
fn running_act_gives_the_drift() {
    let mut s = three_act_schedule();
    s.entries[0].started_at = Some(T0 + 10);
    s.acts[0].started_at = Some(T0 + 130);
    s.acts[0].ended_at = Some(T0 + 200);
    s.acts[1].started_at = Some(T0 + 250);
    let now = T0 + 260;
    let plan = project_timeplan(&s, now).unwrap();
    // the second act is planned for T0 + 210 and started at T0 + 250
    assert_eq!(plan.offset, 40);
    let item = &plan.items[0];
    assert_eq!(item.status, TimeplanItemStatus::Started);
    assert_eq!(item.predicted_start, T0 + 10);
    assert_eq!(item.predicted_end, T0 + 10 + 390);
    let acts = acts_of_item(&plan, 0);
    assert_eq!(acts[0].status, TimeplanItemStatus::Ended);
    assert_eq!(acts[0].predicted_start, T0 + 130);
    assert_eq!(acts[0].predicted_end, T0 + 200);
    assert_eq!(acts[1].status, TimeplanItemStatus::Started);
    assert_eq!(acts[1].predicted_start, T0 + 250);
    assert_eq!(acts[1].predicted_end, T0 + 310);
    assert_eq!(acts[2].status, TimeplanItemStatus::Planned);
    // a slot after the start of the second act
    assert_eq!(acts[2].predicted_start, T0 + 340);
    assert_eq!(acts[2].planned_start, T0 + 300);
}

#[test]
fn finished_act_keeps_its_slot_in_the_projection() {
    let mut s = three_act_schedule();
    s.entries[0].started_at = Some(T0);
    s.acts[0].started_at = Some(T0 + 120);
    s.acts[0].ended_at = Some(T0 + 130);
    let plan = project_timeplan(&s, T0 + 131).unwrap();
    let acts = acts_of_item(&plan, 0);
    assert_eq!(acts[0].predicted_end, T0 + 130);
    // the next act is still a whole slot after the start of the first
    assert_eq!(acts[1].predicted_start, T0 + 120 + 90);
}

#[test]
fn running_custom_entry_gives_the_drift() {
    let mut opening = custom_row(1, Some(T0), "Opening", 600);
    opening.started_at = Some(T0 + 75);
    let s = Schedule {
        entries: vec![opening, custom_row(2, None, "Break", 300)],
        categories: vec![],
        acts: vec![],
    };
    let plan = project_timeplan(&s, T0 + 100).unwrap();
    assert_eq!(plan.offset, 75);
    assert_eq!(plan.items[0].status, TimeplanItemStatus::Started);
    assert_eq!(plan.items[0].predicted_start, T0 + 75);
    assert_eq!(plan.items[0].predicted_end, T0 + 675);
    assert_eq!(plan.items[0].planned_end, T0 + 600);
    assert_eq!(plan.items[1].planned_start, T0 + 600);
    assert_eq!(plan.items[1].predicted_start, T0 + 675);
    assert_eq!(plan.items[1].predicted_end, T0 + 975);
    assert_eq!(
        plan.items[1].timeplan_entry,
        TimeplanEntry::Custom { label: "Break".to_string(), duration_seconds: 300 }
    );
    assert_eq!(plan.items[1].timeplan_entry.duration(), 300);
}

#[test]
fn later_drift_supersedes_earlier_drift() {
    let mut first = custom_row(1, Some(T0), "Opening", 600);
    first.started_at = Some(T0 + 75);
    let mut second = custom_row(2, None, "Break", 300);
    second.started_at = Some(T0 + 700);
    let s = Schedule { entries: vec![first, second], categories: vec![], acts: vec![] };
    let plan = project_timeplan(&s, T0 + 710).unwrap();
    // the second entry is planned for T0 + 600
    assert_eq!(plan.offset, 100);
}

#[test]
fn earliest_start_floors_both_cursors() {
    let s = Schedule {
        entries: vec![
            custom_row(1, Some(T0), "Opening", 600),
            custom_row(2, Some(T0 + 3600), "Lunch", 1800),
            custom_row(3, None, "Closing", 60),
        ],
        categories: vec![],
        acts: vec![],
    };
    let plan = project_timeplan(&s, T0 - 5).unwrap();
    assert_eq!(plan.items[1].planned_start, T0 + 3600);
    assert_eq!(plan.items[1].predicted_start, T0 + 3600);
    assert_eq!(plan.items[2].planned_start, T0 + 5400);
    assert_eq!(plan.items[2].predicted_end, T0 + 5460);
    let cursors: Vec<i64> = plan.items.iter().map(|i| i.predicted_start).collect();
    assert!(cursors.windows(2).all(|w| w[0] <= w[1]));
    let planned: Vec<i64> = plan.items.iter().map(|i| i.planned_start).collect();
    assert!(planned.windows(2).all(|w| w[0] <= w[1]));
}

#[test]
fn acts_of_other_categories_are_left_out() {
    let mut s = three_act_schedule();
    s.acts.insert(1, plan_act(9, "O15", None, None));
    s.acts.push(ScheduledAct {
        id: 10,
        name: "nowhere".to_string(),
        category: None,
        order: None,
        started_at: None,
        ended_at: None,
    });
    let plan = project_timeplan(&s, T0).unwrap();
    let acts = acts_of_item(&plan, 0);
    assert_eq!(acts.iter().map(|a| a.id).collect::<Vec<_>>(), vec![1, 2, 3]);
    assert_eq!(plan.items[0].planned_duration, 390);
}

#[test]
fn empty_timeplan_has_no_first_entry() {
    let s = Schedule { entries: vec![], categories: vec![], acts: vec![] };
    assert_eq!(project_timeplan(&s, T0), Err(TimeplanError::NoFirstEntry));
    assert_eq!(check_integrity(&s), Some(TimeplanError::NoFirstEntry));
    assert_eq!(
        predict_timeplan_at(&s, T0),
        Err(HttpError::ErrorMessages("No first entry".to_string()))
    );
    assert_eq!(predict_timeplan(&s), Err(HttpError::ErrorMessages("No first entry".to_string())));
}

#[test]
fn first_entry_needs_an_earliest_start() {
    let s = Schedule {
        entries: vec![custom_row(1, None, "Opening", 600)],
        categories: vec![],
        acts: vec![],
    };
    assert_eq!(project_timeplan(&s, T0), Err(TimeplanError::EarliestStartNotSet));
    assert_eq!(
        predict_timeplan_at(&s, T0),
        Err(HttpError::ErrorMessages("Earliest start time is not set".to_string()))
    );
}

#[test]
fn entry_that_is_neither_category_nor_custom_is_invalid() {
    let mut row = custom_row(2, None, "Break", 300);
    row.label = None;
    let s = Schedule {
        entries: vec![custom_row(1, Some(T0), "Opening", 600), row],
        categories: vec![],
        acts: vec![],
    };
    assert_eq!(project_timeplan(&s, T0), Err(TimeplanError::InvalidEntry));
    assert_eq!(
        predict_timeplan_at(&s, T0),
        Err(HttpError::ErrorMessages("Invalid timeplan entry".to_string()))
    );
    let mut row = custom_row(2, None, "Break", 300);
    row.duration_seconds = None;
    let s = Schedule {
        entries: vec![custom_row(1, Some(T0), "Opening", 600), row],
        categories: vec![],
        acts: vec![],
    };
    assert_eq!(project_timeplan(&s, T0), Err(TimeplanError::InvalidEntry));
}

#[test]
fn end_without_start_is_invalid() {
    let mut s = three_act_schedule();
    s.entries[0].ended_at = Some(T0);
    assert_eq!(project_timeplan(&s, T0), Err(TimeplanError::InvalidEntry));
    let mut s = three_act_schedule();
    s.acts[2].ended_at = Some(T0);
    assert_eq!(project_timeplan(&s, T0), Err(TimeplanError::InvalidEntry));
    assert_eq!(item_status(None, Some(T0)), None);
    assert_eq!(item_status(Some(T0), Some(T0)), Some(TimeplanItemStatus::Ended));
    assert_eq!(item_status(Some(T0), None), Some(TimeplanItemStatus::Started));
    assert_eq!(item_status(None, None), Some(TimeplanItemStatus::Planned));
}

#[test]
fn unknown_category_is_not_found() {
    let mut s = three_act_schedule();
    s.categories.clear();
    assert_eq!(project_timeplan(&s, T0), Err(TimeplanError::UnknownCategory));
    assert_eq!(predict_timeplan_at(&s, T0), Err(HttpError::NotFound));
}

#[test]
fn category_without_description_or_position_is_invalid() {
    let mut s = three_act_schedule();
    s.categories[0].description = None;
    assert_eq!(project_timeplan(&s, T0), Err(TimeplanError::InvalidEntry));
    let mut s = three_act_schedule();
    s.categories[0].order = None;
    assert_eq!(project_timeplan(&s, T0), Err(TimeplanError::InvalidEntry));
}

#[test]
fn first_failure_in_sequence_order_is_reported() {
    let mut broken = custom_row(1, Some(T0), "Opening", 600);
    broken.label = None;
    let s = Schedule {
        entries: vec![broken, category_row(2, None, "missing")],
        categories: vec![],
        acts: vec![],
    };
    assert_eq!(project_timeplan(&s, T0), Err(TimeplanError::InvalidEntry));
    let mut broken = custom_row(2, None, "Break", 300);
    broken.label = None;
    let s = Schedule {
        entries: vec![category_row(1, Some(T0), "missing"), broken],
        categories: vec![],
        acts: vec![],
    };
    assert_eq!(project_timeplan(&s, T0), Err(TimeplanError::UnknownCategory));
}

#[test]
fn numbers_out_of_range_are_refused() {
    let s = Schedule {
        entries: vec![custom_row(1, Some(T0), "Forever", i64::MAX)],
        categories: vec![],
        acts: vec![],
    };
    assert_eq!(project_timeplan(&s, T0), Err(TimeplanError::OutOfRange));
    assert_eq!(predict_timeplan_at(&s, T0), Err(HttpError::InternalServerError));
    let mut s = three_act_schedule();
    s.categories[0].act_duration_seconds = i64::MAX / 2;
    assert_eq!(project_timeplan(&s, T0), Err(TimeplanError::OutOfRange));
    let s = Schedule {
        entries: vec![custom_row(1, Some(i64::MIN), "Long ago", 1)],
        categories: vec![],
        acts: vec![],
    };
    assert_eq!(project_timeplan(&s, i64::MAX), Err(TimeplanError::OutOfRange));
}

#[test]
fn integrity_failure_comes_before_range_failure() {
    let mut broken = custom_row(2, None, "Break", 300);
    broken.label = None;
    let s = Schedule {
        entries: vec![custom_row(1, Some(T0), "Forever", i64::MAX), broken],
        categories: vec![],
        acts: vec![],
    };
    assert_eq!(project_timeplan(&s, T0), Err(TimeplanError::InvalidEntry));
}

#[test]
fn prediction_at_the_system_clock_is_not_in_the_past() {
    let plan = predict_timeplan(&three_act_schedule()).unwrap();
    // the schedule lies in the past, so the clock leads the plan
    assert!(plan.offset > 0);
    assert_eq!(plan.items[0].planned_start, T0);
    assert_eq!(plan.items[0].predicted_start, T0 + plan.offset);
}

#[test]
fn category_without_acts_lasts_its_warm_up() {
    let s = Schedule {
        entries: vec![category_row(1, Some(T0), "U15"), custom_row(2, None, "Break", 10)],
        categories: vec![plan_category("U15", 120, 60, 30)],
        acts: vec![],
    };
    let plan = project_timeplan(&s, T0).unwrap();
    assert_eq!(plan.items[0].planned_duration, 120);
    assert_eq!(plan.items[1].planned_start, T0 + 120);
    assert_eq!(plan.items[1].predicted_start, T0 + 120);
    assert_eq!(acts_of_item(&plan, 0).len(), 0);
}
