use nrw_freestyle_cup_registration::auth::Auth;
use nrw_freestyle_cup_registration::catalog::{
    add_category, delete_category, edit_category, AddCategoryBody, AddCategoryResponse,
    DeleteCategoryBody, DeleteCategoryResponse, EditCategoryBody, EditCategoryResponse,
};
use nrw_freestyle_cup_registration::http_server::HttpError;
use nrw_freestyle_cup_registration::timeplan::{Category, Schedule, ScheduledAct, TimeplanRow};

fn official(is_admin: bool) -> Auth {
    Auth {
        user_id: 1,
        email: String::new(),
        name: String::new(),
        is_admin,
        club_id: None,
        email_verified: true,
    }
}

fn submitted(name: &str) -> AddCategoryBody {
    AddCategoryBody {
        name: name.to_string(),
        description: Some("Einzel".to_string()),
        from_birthday: "2010-01-01".to_string(),
        to_birthday: "2012-12-31".to_string(),
        is_pair: false,
        is_sonderpokal: true,
        is_single_male: true,
        einfahrzeit_seconds: 120,
        act_duration_seconds: 60,
        judge_duration_seconds: 30,
    }
}

fn reference(id: i64, category: Option<&str>) -> TimeplanRow {
    TimeplanRow {
        id,
        earliest_start_time: None,
        duration_seconds: if category.is_none() { Some(60) } else { None },
        label: if category.is_none() { Some("Pause".to_string()) } else { None },
        category: category.map(|c| c.to_string()),
        started_at: None,
        ended_at: None,
    }
}

fn catalog_of_two() -> Schedule {
    let mut s = Schedule {
        entries: vec![
            reference(1, Some("U11")),
            reference(2, None),
            reference(3, Some("U13")),
            reference(4, Some("U11")),
        ],
        categories: vec![],
        acts: vec![ScheduledAct {
            id: 1,
            name: String::new(),
            category: Some("U11".to_string()),
            order: None,
            started_at: None,
            ended_at: None,
        }],
    };
    add_category(&mut s, &official(true), submitted("U11")).unwrap();
    add_category(&mut s, &official(true), submitted("U13")).unwrap();
    s.categories[0].order = Some(1);
    s.categories[1].order = Some(2);
    s
}

fn changes(name: &str, new_name: &str) -> EditCategoryBody {
    EditCategoryBody {
        name: name.to_string(),
        new_name: new_name.to_string(),
        description: None,
        from_birthday: "2011-01-01".to_string(),
        to_birthday: "2013-12-31".to_string(),
        is_pair: true,
        is_sonderpokal: false,
        is_single_male: false,
        einfahrzeit_seconds: 90,
        act_duration_seconds: 45,
        judge_duration_seconds: -1,
    }
}

#[test]
fn category_is_added_as_submitted() {
    let mut s = Schedule { entries: vec![], categories: vec![], acts: vec![] };
    assert_eq!(add_category(&mut s, &official(true), submitted("U11")), Ok(AddCategoryResponse {}));
    assert_eq!(
        s.categories,
        vec![Category {
            name: "U11".to_string(),
            description: Some("Einzel".to_string()),
            from_birthday: "2010-01-01".to_string(),
            to_birthday: "2012-12-31".to_string(),
            is_pair: false,
            is_sonderpokal: true,
            is_single_male: true,
            order: None,
            einfahrzeit_seconds: 120,
            act_duration_seconds: 60,
            judge_duration_seconds: 30,
        }]
    );
}

#[test]
fn category_name_is_a_key() {
    let mut s = catalog_of_two();
    let before = s.clone();
    assert_eq!(
        add_category(&mut s, &official(true), submitted("U13")),
        Err(HttpError::ErrorMessages("Category name is taken".to_string()))
    );
    assert_eq!(
        edit_category(&mut s, &official(true), changes("U11", "U13")),
        Err(HttpError::ErrorMessages("Category name is taken".to_string()))
    );
    assert_eq!(s, before);
}

#[test]
fn catalog_is_for_administrators() {
    let mut s = catalog_of_two();
    let before = s.clone();
    assert_eq!(add_category(&mut s, &official(false), submitted("U15")), Err(HttpError::StatusCode(403)));
    assert_eq!(
        edit_category(&mut s, &official(false), changes("U11", "U12")),
        Err(HttpError::StatusCode(403))
    );
    assert_eq!(
        delete_category(&mut s, &official(false), DeleteCategoryBody { name: "U11".to_string() }),
        Err(HttpError::StatusCode(403))
    );
    assert_eq!(s, before);
}

#[test]
fn renamed_category_takes_its_timeplan_rows_along() {
    let mut s = catalog_of_two();
    let before = s.clone();
    assert_eq!(
        edit_category(&mut s, &official(true), changes("U11", "U12")),
        Ok(EditCategoryResponse {})
    );
    assert_eq!(
        s.categories[0],
        Category {
            name: "U12".to_string(),
            description: None,
            from_birthday: "2011-01-01".to_string(),
            to_birthday: "2013-12-31".to_string(),
            is_pair: true,
            is_sonderpokal: false,
            is_single_male: false,
            order: Some(1),
            einfahrzeit_seconds: 90,
            act_duration_seconds: 45,
            judge_duration_seconds: -1,
        }
    );
    assert_eq!(s.categories[1], before.categories[1]);
    assert_eq!(
        s.entries.iter().map(|r| r.category.clone()).collect::<Vec<_>>(),
        vec![Some("U12".to_string()), None, Some("U13".to_string()), Some("U12".to_string())]
    );
    assert_eq!(s.entries[1], before.entries[1]);
    assert_eq!(s.acts, before.acts);
}

#[test]
fn category_keeps_its_name_when_only_fields_change() {
    let mut s = catalog_of_two();
    let before = s.clone();
    assert_eq!(
        edit_category(&mut s, &official(true), changes("U13", "U13")),
        Ok(EditCategoryResponse {})
    );
    assert_eq!(s.entries, before.entries);
    assert_eq!(s.categories[0], before.categories[0]);
    assert_eq!(s.categories[1].name, "U13");
    assert_eq!(s.categories[1].einfahrzeit_seconds, 90);
    assert_eq!(s.categories[1].order, Some(2));
}

#[test]
fn editing_an_unknown_category_moves_only_timeplan_rows() {
    let mut s = catalog_of_two();
    s.entries.push(reference(5, Some("U9")));
    let before = s.clone();
    assert_eq!(
        edit_category(&mut s, &official(true), changes("U9", "U13")),
        Ok(EditCategoryResponse {})
    );
    assert_eq!(s.categories, before.categories);
    assert_eq!(s.entries[4].category, Some("U13".to_string()));
    assert_eq!(s.entries[..4], before.entries[..4]);
}

#[test]
fn deleted_category_takes_its_timeplan_rows_with_it() {
    let mut s = catalog_of_two();
    let before = s.clone();
    assert_eq!(
        delete_category(&mut s, &official(true), DeleteCategoryBody { name: "U11".to_string() }),
        Ok(DeleteCategoryResponse {})
    );
    assert_eq!(s.categories, vec![before.categories[1].clone()]);
    assert_eq!(s.entries, vec![before.entries[1].clone(), before.entries[2].clone()]);
    assert_eq!(s.acts, before.acts);
}

#[test]
fn deleting_an_unknown_category_is_not_found() {
    let mut s = catalog_of_two();
    s.entries.push(reference(5, Some("U9")));
    let before = s.clone();
    assert_eq!(
        delete_category(&mut s, &official(true), DeleteCategoryBody { name: "U9".to_string() }),
        Err(HttpError::StatusCode(404))
    );
    assert_eq!(s, before);
}
