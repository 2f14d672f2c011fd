use nrw_freestyle_cup_registration::acts::{
    edit_club_act, name_song, save_act_song, set_act_order, set_song_checked, song_file_for,
    ActOrderBody, EditClubActBody, EditClubActResponse, SaveActSongQuery, SaveActSongResponse,
    SetActOrderResponse, SetSongCheckedResponse, SongCheckedBody, SongFiles,
};
use nrw_freestyle_cup_registration::auth::Auth;
use nrw_freestyle_cup_registration::http_server::HttpError;
use nrw_freestyle_cup_registration::registry::{takes_part, Act, Registry, Starter};
use nrw_freestyle_cup_registration::system_status::Capabilities;
use nrw_freestyle_cup_registration::utils::{
    delete_act, get_act_id_for_starter_id, initialize_acts, initialize_acts_with, set_act,
    set_act_with, ActError,
};

const NOW: i64 = 1_750_000_000;

fn person(id: u128) -> Starter {
    Starter {
        id,
        club_id: 1,
        firstname: format!("F{id}"),
        lastname: format!("L{id}"),
        birthdate: 0,
        single_sonderpokal: false,
        single_male: false,
        single_female: false,
        pair_sonderpokal: false,
        pair: false,
        partner_id: None,
        partner_name: None,
    }
}

fn people(n: u128) -> Registry {
    Registry { starters: (1..=n).map(person).collect(), acts: vec![] }
}

fn caller(is_admin: bool) -> Auth {
    Auth {
        user_id: 1,
        email: String::new(),
        name: String::new(),
        is_admin,
        club_id: None,
        email_verified: true,
    }
}

#[test]
fn act_is_made_as_given() {
    let mut db = people(2);
    assert_eq!(set_act_with(&mut db, 50, NOW, "Duo", &[1, 2], Some("two"), true), Ok(50));
    assert_eq!(
        db.acts,
        vec![Act {
            id: 50,
            name: "Duo".to_string(),
            description: Some("two".to_string()),
            is_pair: true,
            order: None,
            song_file: None,
            song_file_name: None,
            song_checked: false,
            created_at: NOW,
            started_at: None,
            ended_at: None,
            participants: vec![1, 2],
        }]
    );
    assert_eq!(db.starters, people(2).starters);
}

#[test]
fn act_with_a_taken_identifier_or_an_unknown_starter_is_refused() {
    let mut db = people(2);
    set_act_with(&mut db, 50, NOW, "", &[1], None, false).unwrap();
    let before = db.clone();
    assert_eq!(set_act_with(&mut db, 50, NOW, "", &[2], None, false), Err(ActError::IdInUse));
    assert_eq!(set_act_with(&mut db, 50, NOW, "", &[3], None, false), Err(ActError::IdInUse));
    assert_eq!(
        set_act_with(&mut db, 51, NOW, "", &[1, 3], None, true),
        Err(ActError::UnknownStarter)
    );
    assert_eq!(set_act(&mut db, "", &[3], None, false), Err(ActError::UnknownStarter));
    assert_eq!(db, before);
    assert_eq!(ActError::IdInUse.message(), "Fehler beim Hinzufügen der Kür.");
    assert_eq!(
        ActError::UnknownStarter.message(),
        "Fehler beim Hinzufügen des Starters zur Kür."
    );
    assert_eq!(ActError::NotFound.message(), "Kür nicht gefunden.");
}

#[test]
fn act_gets_a_random_identifier_and_the_time_of_the_clock() {
    let mut db = people(2);
    let first = set_act(&mut db, "", &[1], None, false).unwrap();
    let second = set_act(&mut db, "", &[2], None, false).unwrap();
    assert_ne!(first, second);
    assert_eq!((first >> 76) & 0xf, 4);
    assert_eq!((first >> 62) & 0x3, 2);
    assert_eq!(db.acts[0].id, first);
    assert_eq!(db.acts[1].id, second);
    assert!(db.acts[0].created_at > 1_700_000_000);
    assert_eq!(db.acts[1].participants, vec![2]);
}

#[test]
fn act_of_a_starter_is_found_by_kind() {
    let mut db = people(3);
    set_act_with(&mut db, 50, NOW, "", &[1], None, false).unwrap();
    set_act_with(&mut db, 51, NOW, "", &[1, 2], None, true).unwrap();
    set_act_with(&mut db, 52, NOW, "", &[2], None, false).unwrap();
    assert_eq!(get_act_id_for_starter_id(&db, 1, false), Some(50));
    assert_eq!(get_act_id_for_starter_id(&db, 1, true), Some(51));
    assert_eq!(get_act_id_for_starter_id(&db, 2, true), Some(51));
    assert_eq!(get_act_id_for_starter_id(&db, 2, false), Some(52));
    assert_eq!(get_act_id_for_starter_id(&db, 3, false), None);
    assert_eq!(get_act_id_for_starter_id(&db, 3, true), None);
    assert_eq!(db.starter_index(2), Some(1));
    assert_eq!(db.starter_index(9), None);
    assert_eq!(db.act_index(52), Some(2));
    assert_eq!(db.act_index_of(2, true), Some(1));
    assert!(takes_part(&vec![4, 5], 5));
    assert!(!takes_part(&vec![4, 5], 6));
}

#[test]
fn act_is_taken_out_by_identifier() {
    let mut db = people(3);
    set_act_with(&mut db, 50, NOW, "", &[1], None, false).unwrap();
    set_act_with(&mut db, 51, NOW, "", &[2], None, false).unwrap();
    set_act_with(&mut db, 52, NOW, "", &[3], None, false).unwrap();
    assert_eq!(delete_act(&mut db, 51), Ok(()));
    assert_eq!(db.acts.iter().map(|a| a.id).collect::<Vec<_>>(), vec![50, 52]);
    let before = db.clone();
    assert_eq!(delete_act(&mut db, 51), Err(ActError::NotFound));
    assert_eq!(db, before);
}

#[test]
fn missing_acts_are_made() {
    let mut db = people(5);
    db.starters[0].single_male = true;
    db.starters[1].single_female = true;
    db.starters[2].pair = true;
    db.starters[2].partner_id = Some(4);
    db.starters[3].pair = true;
    db.starters[3].partner_id = Some(3);
    db.starters[4].partner_id = Some(1);
    set_act_with(&mut db, 50, NOW, "kept", &[2], None, false).unwrap();
    assert_eq!(initialize_acts(&mut db), Ok(()));
    assert_eq!(db.acts.len(), 3);
    assert_eq!(db.acts[0].id, 50);
    assert_eq!(db.acts[0].name, "kept");
    assert_eq!(db.acts[1].participants, vec![1]);
    assert!(!db.acts[1].is_pair);
    assert_eq!(db.acts[1].name, "");
    assert_eq!(db.acts[1].description, None);
    assert_eq!(db.acts[2].participants, vec![3, 4]);
    assert!(db.acts[2].is_pair);
    // a second run finds nothing missing
    let before = db.clone();
    assert_eq!(initialize_acts(&mut db), Ok(()));
    assert_eq!(db, before);
}

fn five_with_missing_acts() -> Registry {
    let mut db = people(5);
    db.starters[0].single_male = true;
    db.starters[1].single_female = true;
    db.starters[2].pair = true;
    db.starters[2].partner_id = Some(4);
    db.starters[3].pair = true;
    db.starters[3].partner_id = Some(3);
    db.starters[4].single_male = true;
    db.starters[4].pair = true;
    db.starters[4].partner_id = Some(1);
    set_act_with(&mut db, 50, NOW, "kept", &[2], None, false).unwrap();
    db
}

#[test]
fn each_missing_act_gets_the_identifier_at_the_place_of_its_starter() {
    let mut db = five_with_missing_acts();
    let singles = vec![101, 102, 103, 104, 105];
    let pairs = vec![201, 202, 203, 204, 205];
    assert_eq!(initialize_acts_with(&mut db, &singles, &pairs, NOW + 7), Ok(()));
    let made: Vec<(u128, bool, Vec<u128>, i64)> = db.acts[1..]
        .iter()
        .map(|a| (a.id, a.is_pair, a.participants.clone(), a.created_at))
        .collect();
    assert_eq!(
        made,
        vec![
            (101, false, vec![1], NOW + 7),
            (105, false, vec![5], NOW + 7),
            (203, true, vec![3, 4], NOW + 7),
            (205, true, vec![5, 1], NOW + 7),
        ]
    );
    assert_eq!(db.acts[0].id, 50);
    assert_eq!(db.starters, five_with_missing_acts().starters);
    let before = db.clone();
    assert_eq!(initialize_acts_with(&mut db, &singles, &pairs, NOW + 8), Ok(()));
    assert_eq!(db, before);
}

#[test]
fn an_identifier_in_use_ends_the_run_where_it_stands() {
    let mut db = five_with_missing_acts();
    // the identifier for the single act of the fifth starter is taken
    let singles = vec![101, 102, 103, 104, 50];
    let pairs = vec![201, 202, 203, 204, 205];
    assert_eq!(initialize_acts_with(&mut db, &singles, &pairs, NOW), Err(ActError::IdInUse));
    assert_eq!(db.acts.iter().map(|a| a.id).collect::<Vec<_>>(), vec![50, 101]);
    // the identifier for the pair act of the third starter is taken
    let mut db = five_with_missing_acts();
    let singles = vec![101, 102, 103, 104, 105];
    let pairs = vec![201, 202, 101, 204, 205];
    assert_eq!(initialize_acts_with(&mut db, &singles, &pairs, NOW), Err(ActError::IdInUse));
    assert_eq!(db.acts.iter().map(|a| a.id).collect::<Vec<_>>(), vec![50, 101, 105]);
    // identifiers that are not needed may be in use
    let mut db = five_with_missing_acts();
    let singles = vec![101, 50, 50, 50, 105];
    let pairs = vec![50, 50, 203, 50, 205];
    assert_eq!(initialize_acts_with(&mut db, &singles, &pairs, NOW), Ok(()));
    assert_eq!(db.acts.len(), 5);
}

#[test]
fn no_second_act_of_a_kind_is_made() {
    let mut db = people(3);
    db.starters[0].single_male = true;
    db.starters[1].pair = true;
    db.starters[1].partner_id = Some(3);
    set_act_with(&mut db, 50, NOW, "", &[1], None, false).unwrap();
    set_act_with(&mut db, 51, NOW, "", &[2, 3], None, true).unwrap();
    let before = db.clone();
    assert_eq!(initialize_acts(&mut db), Ok(()));
    assert_eq!(db, before);
    // a starter listed twice gets one act
    let mut db = people(1);
    db.starters[0].single_male = true;
    db.starters.push(db.starters[0].clone());
    assert_eq!(initialize_acts(&mut db), Ok(()));
    assert_eq!(db.acts.len(), 1);
}

#[test]
fn a_partner_who_is_no_starter_ends_the_run() {
    let mut db = people(2);
    db.starters[0].single_male = true;
    db.starters[1].pair = true;
    db.starters[1].partner_id = Some(99);
    assert_eq!(initialize_acts(&mut db), Err(ActError::UnknownStarter));
    // what was made before stays
    assert_eq!(db.acts.len(), 1);
    assert_eq!(db.acts[0].participants, vec![1]);
}

fn two_acts() -> Registry {
    let mut db = people(2);
    set_act_with(&mut db, 50, NOW, "", &[1], None, false).unwrap();
    set_act_with(&mut db, 51, NOW, "", &[2], None, false).unwrap();
    db
}

#[test]
fn position_is_set_by_an_administrator() {
    let mut db = two_acts();
    assert_eq!(
        set_act_order(&mut db, &caller(false), ActOrderBody { act_id: 51, order: Some(3) }),
        Err(HttpError::StatusCode(403))
    );
    assert_eq!(db, two_acts());
    assert_eq!(
        set_act_order(&mut db, &caller(true), ActOrderBody { act_id: 51, order: Some(3) }),
        Ok(SetActOrderResponse {})
    );
    assert_eq!(db.acts[1].order, Some(3));
    assert_eq!(db.acts[0], two_acts().acts[0]);
    assert_eq!(
        set_act_order(&mut db, &caller(true), ActOrderBody { act_id: 51, order: None }),
        Ok(SetActOrderResponse {})
    );
    assert_eq!(db, two_acts());
    // an act that is not there
    assert_eq!(
        set_act_order(&mut db, &caller(true), ActOrderBody { act_id: 9, order: Some(1) }),
        Ok(SetActOrderResponse {})
    );
    assert_eq!(db, two_acts());
}

#[test]
fn name_and_description_are_set_while_music_may_be_uploaded() {
    let mut db = two_acts();
    let body = EditClubActBody {
        id: 50,
        name: "Feuer".to_string(),
        description: Some("mit Fackeln".to_string()),
    };
    let closed = Capabilities { can_upload_music: false, ..Capabilities::all() };
    assert_eq!(edit_club_act(&mut db, &closed, body.clone()), Err(HttpError::StatusCode(403)));
    assert_eq!(db, two_acts());
    assert_eq!(edit_club_act(&mut db, &Capabilities::all(), body), Ok(EditClubActResponse {}));
    assert_eq!(db.acts[0].name, "Feuer");
    assert_eq!(db.acts[0].description, Some("mit Fackeln".to_string()));
    assert_eq!(db.acts[1], two_acts().acts[1]);
}

#[test]
fn checked_mark_is_set_by_an_administrator() {
    let mut db = two_acts();
    assert_eq!(
        set_song_checked(&mut db, &caller(false), SongCheckedBody { act_id: 50, checked: true }),
        Err(HttpError::StatusCode(403))
    );
    assert_eq!(db, two_acts());
    assert_eq!(
        set_song_checked(&mut db, &caller(true), SongCheckedBody { act_id: 50, checked: true }),
        Ok(SetSongCheckedResponse {})
    );
    assert!(db.acts[0].song_checked);
    assert!(!db.acts[1].song_checked);
}

#[test]
fn song_is_stored_under_the_identifier_of_the_act() {
    let id: u128 = 0xa1a2a3a4_b1b2_c1c2_d1d2_d3d4d5d6d7d8;
    assert_eq!(
        song_file_for(id, Some("mp3".to_string())),
        Ok("a1a2a3a4-b1b2-c1c2-d1d2-d3d4d5d6d7d8.mp3".to_string())
    );
    assert_eq!(
        song_file_for(1, Some(String::new())),
        Ok("00000000-0000-0000-0000-000000000001.".to_string())
    );
    assert_eq!(song_file_for(id, None), Err(HttpError::StatusCode(400)));
    let query = SaveActSongQuery { act_id: 51 };
    assert_eq!(
        name_song(&query, Some("Mein Lied.final.MP3".to_string())),
        Ok(SongFiles {
            file_name: "Mein Lied.final.MP3".to_string(),
            save_file_name: "00000000-0000-0000-0000-000000000033.MP3".to_string(),
        })
    );
    assert_eq!(name_song(&query, Some("lied".to_string())), Err(HttpError::StatusCode(400)));
    assert_eq!(name_song(&query, None), Err(HttpError::StatusCode(400)));
}

#[test]
fn song_names_are_recorded_with_the_act() {
    let mut db = two_acts();
    let files = SongFiles {
        file_name: "lied.mp3".to_string(),
        save_file_name: "00000000-0000-0000-0000-000000000033.mp3".to_string(),
    };
    assert_eq!(
        save_act_song(&mut db, SaveActSongQuery { act_id: 51 }, files),
        SaveActSongResponse {}
    );
    assert_eq!(db.acts[1].song_file_name, Some("lied.mp3".to_string()));
    assert_eq!(
        db.acts[1].song_file,
        Some("00000000-0000-0000-0000-000000000033.mp3".to_string())
    );
    assert_eq!(db.acts[0], two_acts().acts[0]);
}
