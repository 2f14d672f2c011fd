use nrw_freestyle_cup_registration::http_server::HttpError;
use nrw_freestyle_cup_registration::pairing::{
    add_club_starter, add_club_starter_with, create_starter, edit_club_starter,
    edit_club_starter_with, join_name, update_starter, AddClubStarterBody, AddClubStarterResponse,
    EditClubStarterBody, EditClubStarterResponse, PairingError,
};
use nrw_freestyle_cup_registration::registry::{Act, Registry, Starter};
use nrw_freestyle_cup_registration::system_status::Capabilities;

const CLUB: u128 = 100;
const NOW: i64 = 1_750_000_000;
const PAIR_ACT: u128 = 9001;
const SINGLE_ACT: u128 = 9002;

fn new_starter(club_id: u128, first: &str, last: &str) -> AddClubStarterBody {
    AddClubStarterBody {
        club_id,
        firstname: first.to_string(),
        lastname: last.to_string(),
        birthdate: 1_300_000_000,
        single_sonderpokal: false,
        single_male: false,
        single_female: false,
        pair_sonderpokal: false,
        pair: false,
        partner_id: None,
        partner_name: None,
    }
}

fn edit_of(s: &Starter) -> EditClubStarterBody {
    EditClubStarterBody {
        starter_id: s.id,
        firstname: s.firstname.clone(),
        lastname: s.lastname.clone(),
        birthdate: s.birthdate,
        single_sonderpokal: s.single_sonderpokal,
        single_male: s.single_male,
        single_female: s.single_female,
        pair_sonderpokal: s.pair_sonderpokal,
        pair: s.pair,
        partner_name: s.partner_name.clone(),
        partner_id: s.partner_id,
    }
}

fn empty_registry() -> Registry {
    Registry { starters: vec![], acts: vec![] }
}

fn starter_of(db: &Registry, id: u128) -> &Starter {
    db.starters.iter().find(|s| s.id == id).unwrap()
}

fn pair_acts(db: &Registry) -> Vec<&Act> {
    db.acts.iter().filter(|a| a.is_pair).collect()
}

fn single_acts_of(db: &Registry, id: u128) -> Vec<&Act> {
    db.acts.iter().filter(|a| !a.is_pair && a.participants.contains(&id)).collect()
}

fn links_are_symmetric(db: &Registry) -> bool {
    db.starters.iter().all(|a| match a.partner_id {
        Some(p) => p != a.id && db.starters.iter().any(|b| b.id == p && b.partner_id == Some(a.id)),
        None => true,
    })
}

fn singles_follow_flags(db: &Registry) -> bool {
    db.starters
        .iter()
        .all(|s| (s.single_male || s.single_female) == (single_acts_of(db, s.id).len() == 1))
        && db.starters.iter().all(|s| single_acts_of(db, s.id).len() <= 1)
}

fn partners_have_a_pair_act(db: &Registry) -> bool {
    db.starters.iter().all(|a| match a.partner_id {
        Some(p) => db
            .acts
            .iter()
            .any(|act| act.is_pair && act.participants.contains(&a.id) && act.participants.contains(&p)),
        None => true,
    })
}

fn pair_acts_join_partners(db: &Registry) -> bool {
    db.acts.iter().filter(|a| a.is_pair).all(|act| {
        act.participants.len() == 2
            && db.starters.iter().any(|s| {
                s.id == act.participants[0] && s.partner_id == Some(act.participants[1])
            })
            && db.starters.iter().any(|s| {
                s.id == act.participants[1] && s.partner_id == Some(act.participants[0])
            })
    }) && db.starters.iter().all(|s| {
        db.acts.iter().filter(|a| a.is_pair && a.participants.contains(&s.id)).count() <= 1
    })
}

fn all_allowed() -> Capabilities {
    Capabilities::all()
}

/// Anna and Ben of one club are each other's partner and have a pair act;
/// Cleo competes alone; Dan is of another club.
fn club_of_four() -> Registry {
    let mut db = empty_registry();
    let mut anna = new_starter(CLUB, "Anna", "Alt");
    anna.pair = true;
    anna.partner_name = Some("Ben Berg".to_string());
    create_starter(&mut db, anna, 1, 101, 102, NOW).unwrap();
    let mut ben = new_starter(CLUB, "Ben", "Berg");
    ben.pair = true;
    ben.partner_name = Some("Anna Alt".to_string());
    create_starter(&mut db, ben, 2, 103, 104, NOW).unwrap();
    let mut cleo = new_starter(CLUB, "Cleo", "Carl");
    cleo.single_female = true;
    cleo.pair = true;
    create_starter(&mut db, cleo, 3, 105, 106, NOW).unwrap();
    let mut dan = new_starter(CLUB + 1, "Dan", "Dorn");
    dan.pair = true;
    create_starter(&mut db, dan, 4, 107, 108, NOW).unwrap();
    db
}

#[test]
fn single_starter_gets_exactly_one_single_act() {
    let mut db = empty_registry();
    let mut body = new_starter(CLUB, "A", "D");
    body.single_male = true;
    assert_eq!(create_starter(&mut db, body, 1, PAIR_ACT, SINGLE_ACT, NOW), Ok(()));
    assert_eq!(db.starters.len(), 1);
    assert_eq!(db.starters[0].partner_id, None);
    assert_eq!(
        db.acts,
        vec![Act {
            id: SINGLE_ACT,
            name: String::new(),
            description: None,
            is_pair: false,
            order: None,
            song_file: None,
            song_file_name: None,
            song_checked: false,
            created_at: NOW,
            started_at: None,
            ended_at: None,
            participants: vec![1],
        }]
    );
}

#[test]
fn second_of_a_pair_resolves_the_first_by_name() {
    let mut db = empty_registry();
    let mut a = new_starter(CLUB, "A", "D");
    a.pair = true;
    a.partner_name = Some("B C".to_string());
    assert_eq!(create_starter(&mut db, a, 1, 11, 12, NOW), Ok(()));
    // nobody of that name is registered yet
    assert_eq!(db.starters[0].partner_id, None);
    assert_eq!(db.starters[0].partner_name, Some("B C".to_string()));
    assert!(db.acts.is_empty());
    let mut b = new_starter(CLUB, "B", "C");
    b.pair = true;
    b.partner_name = Some("A D".to_string());
    assert_eq!(create_starter(&mut db, b, 2, 21, 22, NOW + 1), Ok(()));
    assert_eq!(starter_of(&db, 1).partner_id, Some(2));
    assert_eq!(starter_of(&db, 2).partner_id, Some(1));
    assert_eq!(starter_of(&db, 1).partner_name, Some("B C".to_string()));
    assert_eq!(starter_of(&db, 2).partner_name, Some("A D".to_string()));
    let pairs = pair_acts(&db);
    assert_eq!(pairs.len(), 1);
    assert_eq!(pairs[0].id, 21);
    assert_eq!(pairs[0].participants, vec![2, 1]);
    assert_eq!(pairs[0].created_at, NOW + 1);
    assert!(links_are_symmetric(&db));
}

#[test]
fn editing_resolves_a_partner_by_name() {
    let mut db = empty_registry();
    let mut a = new_starter(CLUB, "A", "D");
    a.pair = true;
    create_starter(&mut db, a, 1, 11, 12, NOW).unwrap();
    let mut b = new_starter(CLUB, "B", "C");
    b.pair = true;
    create_starter(&mut db, b, 2, 21, 22, NOW).unwrap();
    assert!(db.acts.is_empty());
    let mut edit = edit_of(starter_of(&db, 2));
    edit.partner_name = Some("A D".to_string());
    assert_eq!(update_starter(&mut db, edit, PAIR_ACT, SINGLE_ACT, NOW + 5), Ok(()));
    assert_eq!(starter_of(&db, 1).partner_id, Some(2));
    assert_eq!(starter_of(&db, 1).partner_name, Some("B C".to_string()));
    assert_eq!(starter_of(&db, 2).partner_id, Some(1));
    assert_eq!(starter_of(&db, 2).partner_name, Some("A D".to_string()));
    let pairs = pair_acts(&db);
    assert_eq!(pairs.len(), 1);
    assert_eq!(pairs[0].id, PAIR_ACT);
    assert_eq!(pairs[0].participants, vec![2, 1]);
}

#[test]
fn name_is_first_name_space_last_name() {
    assert_eq!(join_name(&"Anna".to_string(), &"Alt".to_string()), "Anna Alt");
    assert_eq!(join_name(&String::new(), &"Alt".to_string()), " Alt");
}

#[test]
fn the_fixture_is_sound() {
    let db = club_of_four();
    assert_eq!(starter_of(&db, 1).partner_id, Some(2));
    assert_eq!(starter_of(&db, 2).partner_id, Some(1));
    assert_eq!(pair_acts(&db).len(), 1);
    assert_eq!(single_acts_of(&db, 3).len(), 1);
    assert!(links_are_symmetric(&db));
    assert!(singles_follow_flags(&db));
    assert!(partners_have_a_pair_act(&db));
    assert!(pair_acts_join_partners(&db));
}

#[test]
fn partnering_oneself_is_refused_and_changes_nothing() {
    let mut db = club_of_four();
    let before = db.clone();
    let mut edit = edit_of(starter_of(&db, 3));
    edit.partner_name = Some("Cleo Carl".to_string());
    assert_eq!(
        update_starter(&mut db, edit.clone(), PAIR_ACT, SINGLE_ACT, NOW),
        Err(PairingError::SelfPartner)
    );
    assert_eq!(db, before);
    assert_eq!(
        edit_club_starter_with(&mut db, &all_allowed(), edit.clone(), PAIR_ACT, SINGLE_ACT, NOW),
        Err(HttpError::ErrorMessages("Fahrer und Partner sind die selbe Person!".to_string()))
    );
    assert_eq!(
        edit_club_starter(&mut db, &all_allowed(), edit),
        Err(HttpError::ErrorMessages("Fahrer und Partner sind die selbe Person!".to_string()))
    );
    assert_eq!(db, before);
    let mut own = new_starter(CLUB, "Eve", "Ernst");
    own.partner_id = Some(5);
    assert_eq!(
        create_starter(&mut db, own, 5, PAIR_ACT, SINGLE_ACT, NOW),
        Err(PairingError::SelfPartner)
    );
    assert_eq!(db, before);
}

#[test]
fn changing_the_partner_relinks_both_sides_and_renews_the_act() {
    let mut db = club_of_four();
    // Anna leaves Ben for Cleo
    let mut edit = edit_of(starter_of(&db, 1));
    edit.partner_name = Some("Cleo Carl".to_string());
    assert_eq!(update_starter(&mut db, edit, PAIR_ACT, SINGLE_ACT, NOW + 9), Ok(()));
    assert_eq!(starter_of(&db, 1).partner_id, Some(3));
    assert_eq!(starter_of(&db, 3).partner_id, Some(1));
    assert_eq!(starter_of(&db, 3).partner_name, Some("Anna Alt".to_string()));
    assert_eq!(starter_of(&db, 2).partner_id, None);
    assert_eq!(starter_of(&db, 2).partner_name, None);
    let pairs = pair_acts(&db);
    assert_eq!(pairs.len(), 1);
    assert_eq!(pairs[0].id, PAIR_ACT);
    assert_eq!(pairs[0].participants, vec![1, 3]);
    assert!(links_are_symmetric(&db));
    assert!(singles_follow_flags(&db));
    assert!(partners_have_a_pair_act(&db));
}

#[test]
fn taking_over_a_partner_frees_the_old_one() {
    let mut db = club_of_four();
    // Cleo takes Ben, who was Anna's
    let mut edit = edit_of(starter_of(&db, 3));
    edit.partner_name = Some("Ben Berg".to_string());
    assert_eq!(update_starter(&mut db, edit, PAIR_ACT, SINGLE_ACT, NOW), Ok(()));
    assert_eq!(starter_of(&db, 3).partner_id, Some(2));
    assert_eq!(starter_of(&db, 2).partner_id, Some(3));
    assert_eq!(starter_of(&db, 2).partner_name, Some("Cleo Carl".to_string()));
    assert_eq!(starter_of(&db, 1).partner_id, None);
    let pairs = pair_acts(&db);
    assert_eq!(pairs.len(), 1);
    assert_eq!(pairs[0].participants, vec![3, 2]);
    assert!(links_are_symmetric(&db));
    assert!(partners_have_a_pair_act(&db));
}

#[test]
fn unchanged_partner_leaves_links_and_acts_alone() {
    let mut db = club_of_four();
    let before = db.clone();
    let mut edit = edit_of(starter_of(&db, 1));
    edit.firstname = "Anne".to_string();
    edit.birthdate = 5;
    edit.pair_sonderpokal = true;
    assert_eq!(update_starter(&mut db, edit, PAIR_ACT, SINGLE_ACT, NOW), Ok(()));
    assert_eq!(db.acts, before.acts);
    assert_eq!(starter_of(&db, 1).firstname, "Anne");
    assert_eq!(starter_of(&db, 1).birthdate, 5);
    assert!(starter_of(&db, 1).pair_sonderpokal);
    assert_eq!(starter_of(&db, 1).partner_id, Some(2));
    assert_eq!(starter_of(&db, 1).club_id, CLUB);
    assert_eq!(starter_of(&db, 2), before.starters.iter().find(|s| s.id == 2).unwrap());
}

#[test]
fn explicit_partner_counts_only_with_the_stored_name_and_the_pair_flag() {
    // with the stored name and the flag, the explicit partner is taken
    let mut db = club_of_four();
    let mut edit = edit_of(starter_of(&db, 3));
    edit.partner_id = Some(4);
    assert_eq!(update_starter(&mut db, edit, PAIR_ACT, SINGLE_ACT, NOW), Ok(()));
    assert_eq!(starter_of(&db, 3).partner_id, Some(4));
    assert_eq!(starter_of(&db, 4).partner_id, Some(3));
    // with another name, the name decides
    let mut db = club_of_four();
    let mut edit = edit_of(starter_of(&db, 3));
    edit.partner_id = Some(4);
    edit.partner_name = Some("Nobody Known".to_string());
    assert_eq!(update_starter(&mut db, edit, PAIR_ACT, SINGLE_ACT, NOW), Ok(()));
    assert_eq!(starter_of(&db, 3).partner_id, None);
    assert_eq!(starter_of(&db, 3).partner_name, Some("Nobody Known".to_string()));
    assert_eq!(starter_of(&db, 4).partner_id, None);
    // without the pair flag, the name decides
    let mut db = club_of_four();
    let mut edit = edit_of(starter_of(&db, 3));
    edit.partner_id = Some(4);
    edit.pair = false;
    assert_eq!(update_starter(&mut db, edit, PAIR_ACT, SINGLE_ACT, NOW), Ok(()));
    assert_eq!(starter_of(&db, 3).partner_id, None);
}

#[test]
fn losing_the_partner_clears_the_other_side() {
    let mut db = club_of_four();
    let mut edit = edit_of(starter_of(&db, 1));
    edit.partner_name = None;
    assert_eq!(update_starter(&mut db, edit, PAIR_ACT, SINGLE_ACT, NOW), Ok(()));
    assert_eq!(starter_of(&db, 1).partner_id, None);
    assert_eq!(starter_of(&db, 2).partner_id, None);
    assert_eq!(starter_of(&db, 2).partner_name, None);
    assert!(links_are_symmetric(&db));
    // the act of the former pair goes with the pair
    assert!(pair_acts(&db).is_empty());
    assert!(pair_acts_join_partners(&db));
}

#[test]
fn closing_to_pairs_keeps_the_partner_the_name_stands_for() {
    let mut db = club_of_four();
    let before = db.clone();
    // the name still stands for Ben
    let mut edit = edit_of(starter_of(&db, 1));
    edit.pair = false;
    assert_eq!(update_starter(&mut db, edit, PAIR_ACT, SINGLE_ACT, NOW), Ok(()));
    assert!(!starter_of(&db, 1).pair);
    assert_eq!(starter_of(&db, 1).partner_id, Some(2));
    assert_eq!(starter_of(&db, 1).partner_name, Some("Ben Berg".to_string()));
    // no other row, no link and no act has changed
    assert_eq!(starter_of(&db, 2), before.starters.iter().find(|s| s.id == 2).unwrap());
    assert_eq!(starter_of(&db, 3), before.starters.iter().find(|s| s.id == 3).unwrap());
    assert_eq!(db.acts, before.acts);
    assert!(links_are_symmetric(&db));
    assert!(pair_acts_join_partners(&db));
}

#[test]
fn name_resolves_a_partner_for_a_starter_not_open_to_pairs() {
    let mut db = club_of_four();
    // Cleo closes to pairs and names Dan's namesake of her own club
    let mut dana = new_starter(CLUB, "Dana", "Dorn");
    dana.pair = true;
    create_starter(&mut db, dana, 5, 111, 112, NOW).unwrap();
    let mut edit = edit_of(starter_of(&db, 3));
    edit.pair = false;
    edit.partner_name = Some("Dana Dorn".to_string());
    assert_eq!(update_starter(&mut db, edit, PAIR_ACT, SINGLE_ACT, NOW), Ok(()));
    assert_eq!(starter_of(&db, 3).partner_id, Some(5));
    assert_eq!(starter_of(&db, 5).partner_id, Some(3));
    assert_eq!(starter_of(&db, 5).partner_name, Some("Cleo Carl".to_string()));
    assert!(pair_acts(&db).iter().any(|a| a.participants == vec![3, 5]));
    assert!(links_are_symmetric(&db));
    assert!(pair_acts_join_partners(&db));
}

#[test]
fn own_name_is_refused_also_when_not_open_to_pairs() {
    let mut db = club_of_four();
    let before = db.clone();
    // Cleo is open to pairs as stored, so her own name stands for her
    let mut edit = edit_of(starter_of(&db, 3));
    edit.pair = false;
    edit.firstname = "Chloe".to_string();
    edit.partner_name = Some("Cleo Carl".to_string());
    assert_eq!(
        update_starter(&mut db, edit.clone(), PAIR_ACT, SINGLE_ACT, NOW),
        Err(PairingError::SelfPartner)
    );
    assert_eq!(
        edit_club_starter_with(&mut db, &all_allowed(), edit, PAIR_ACT, SINGLE_ACT, NOW),
        Err(HttpError::ErrorMessages("Fahrer und Partner sind die selbe Person!".to_string()))
    );
    assert_eq!(db, before);
}

#[test]
fn submitted_partner_is_disregarded_when_not_open_to_pairs() {
    // the name stands for nobody: no partner
    let mut db = club_of_four();
    let mut edit = edit_of(starter_of(&db, 3));
    edit.pair = false;
    edit.partner_id = Some(4);
    assert_eq!(update_starter(&mut db, edit, PAIR_ACT, SINGLE_ACT, NOW), Ok(()));
    assert_eq!(starter_of(&db, 3).partner_id, None);
    assert_eq!(starter_of(&db, 4).partner_id, None);
    // the name stands for Ben: Ben it is, not Dan
    let mut db = club_of_four();
    let mut edit = edit_of(starter_of(&db, 3));
    edit.pair = false;
    edit.partner_id = Some(4);
    edit.partner_name = Some("Ben Berg".to_string());
    assert_eq!(update_starter(&mut db, edit, PAIR_ACT, SINGLE_ACT, NOW), Ok(()));
    assert_eq!(starter_of(&db, 3).partner_id, Some(2));
    assert_eq!(starter_of(&db, 2).partner_id, Some(3));
    assert_eq!(starter_of(&db, 4).partner_id, None);
    assert_eq!(starter_of(&db, 1).partner_id, None);
    assert!(links_are_symmetric(&db));
    assert!(pair_acts_join_partners(&db));
}

#[test]
fn new_partner_by_creation_renews_the_act() {
    let mut db = club_of_four();
    let old_act = pair_acts(&db)[0].id;
    let mut eve = new_starter(CLUB, "Eve", "Ernst");
    eve.pair = true;
    eve.partner_id = Some(2);
    assert_eq!(create_starter(&mut db, eve, 5, PAIR_ACT, SINGLE_ACT, NOW), Ok(()));
    assert_eq!(starter_of(&db, 5).partner_id, Some(2));
    assert_eq!(starter_of(&db, 2).partner_id, Some(5));
    assert_eq!(starter_of(&db, 2).partner_name, Some("Eve Ernst".to_string()));
    assert_eq!(starter_of(&db, 1).partner_id, None);
    let pairs = pair_acts(&db);
    assert_eq!(pairs.len(), 1);
    assert_ne!(pairs[0].id, old_act);
    assert_eq!(pairs[0].participants, vec![5, 2]);
    assert!(links_are_symmetric(&db));
    assert!(pair_acts_join_partners(&db));
    assert!(singles_follow_flags(&db));
}

#[test]
fn ambiguous_or_foreign_names_resolve_to_nobody() {
    let mut db = club_of_four();
    let mut twin = new_starter(CLUB, "Cleo", "Carl");
    twin.pair = true;
    create_starter(&mut db, twin, 5, 111, 112, NOW).unwrap();
    assert_eq!(db.resolve_by_name(CLUB, &Some("Cleo Carl".to_string())), None);
    assert_eq!(db.resolve_by_name(CLUB, &Some("Ben Berg".to_string())), Some(2));
    // Dan is of another club
    assert_eq!(db.resolve_by_name(CLUB, &Some("Dan Dorn".to_string())), None);
    assert_eq!(db.resolve_by_name(CLUB + 1, &Some("Dan Dorn".to_string())), Some(4));
    assert_eq!(db.resolve_by_name(CLUB, &None), None);
    assert_eq!(db.resolve_by_name(CLUB, &Some("Ben  Berg".to_string())), None);
    let mut edit = edit_of(starter_of(&db, 1));
    edit.partner_name = Some("Cleo Carl".to_string());
    assert_eq!(update_starter(&mut db, edit, PAIR_ACT, SINGLE_ACT, NOW), Ok(()));
    assert_eq!(starter_of(&db, 1).partner_id, None);
    assert_eq!(starter_of(&db, 1).partner_name, Some("Cleo Carl".to_string()));
}

#[test]
fn starters_not_open_to_a_pair_are_no_candidates() {
    let mut db = empty_registry();
    create_starter(&mut db, new_starter(CLUB, "Solo", "Only"), 1, 11, 12, NOW).unwrap();
    assert_eq!(db.resolve_by_name(CLUB, &Some("Solo Only".to_string())), None);
}

#[test]
fn single_act_follows_the_flags() {
    let mut db = club_of_four();
    // Anna starts to compete alone
    let mut edit = edit_of(starter_of(&db, 1));
    edit.single_female = true;
    assert_eq!(update_starter(&mut db, edit, PAIR_ACT, SINGLE_ACT, NOW + 3), Ok(()));
    let singles = single_acts_of(&db, 1);
    assert_eq!(singles.len(), 1);
    assert_eq!(singles[0].id, SINGLE_ACT);
    assert_eq!(singles[0].participants, vec![1]);
    assert_eq!(singles[0].created_at, NOW + 3);
    // editing again makes no second act
    let edit = edit_of(starter_of(&db, 1));
    assert_eq!(update_starter(&mut db, edit, 9003, 9004, NOW + 4), Ok(()));
    assert_eq!(single_acts_of(&db, 1).len(), 1);
    // Cleo stops competing alone
    let mut edit = edit_of(starter_of(&db, 3));
    edit.single_female = false;
    assert_eq!(update_starter(&mut db, edit, 9005, 9006, NOW + 5), Ok(()));
    assert!(single_acts_of(&db, 3).is_empty());
    assert!(singles_follow_flags(&db));
    assert_eq!(pair_acts(&db).len(), 1);
}

#[test]
fn missing_starters_are_not_found() {
    let mut db = club_of_four();
    let before = db.clone();
    let mut edit = edit_of(starter_of(&db, 1));
    edit.starter_id = 77;
    assert_eq!(
        update_starter(&mut db, edit.clone(), PAIR_ACT, SINGLE_ACT, NOW),
        Err(PairingError::StarterNotFound)
    );
    assert_eq!(
        edit_club_starter_with(&mut db, &all_allowed(), edit, PAIR_ACT, SINGLE_ACT, NOW),
        Err(HttpError::NotFound)
    );
    let mut edit = edit_of(starter_of(&db, 3));
    edit.partner_id = Some(78);
    assert_eq!(
        update_starter(&mut db, edit, PAIR_ACT, SINGLE_ACT, NOW),
        Err(PairingError::PartnerNotFound)
    );
    let mut body = new_starter(CLUB, "Eve", "Ernst");
    body.partner_id = Some(78);
    assert_eq!(
        create_starter(&mut db, body, 5, PAIR_ACT, SINGLE_ACT, NOW),
        Err(PairingError::PartnerNotFound)
    );
    assert_eq!(db, before);
}

#[test]
fn identifiers_in_use_are_refused() {
    let mut db = club_of_four();
    let before = db.clone();
    let taken = db.acts[0].id;
    let edit = edit_of(starter_of(&db, 1));
    assert_eq!(
        update_starter(&mut db, edit.clone(), taken, SINGLE_ACT, NOW),
        Err(PairingError::IdInUse)
    );
    assert_eq!(
        update_starter(&mut db, edit.clone(), PAIR_ACT, taken, NOW),
        Err(PairingError::IdInUse)
    );
    assert_eq!(
        update_starter(&mut db, edit.clone(), PAIR_ACT, PAIR_ACT, NOW),
        Err(PairingError::IdInUse)
    );
    assert_eq!(
        edit_club_starter_with(&mut db, &all_allowed(), edit, PAIR_ACT, PAIR_ACT, NOW),
        Err(HttpError::InternalServerError)
    );
    assert_eq!(
        create_starter(&mut db, new_starter(CLUB, "Eve", "Ernst"), 1, PAIR_ACT, SINGLE_ACT, NOW),
        Err(PairingError::IdInUse)
    );
    assert_eq!(
        create_starter(&mut db, new_starter(CLUB, "Eve", "Ernst"), 5, taken, SINGLE_ACT, NOW),
        Err(PairingError::IdInUse)
    );
    assert_eq!(db, before);
}

#[test]
fn registration_needs_the_capability() {
    let mut db = club_of_four();
    let before = db.clone();
    let closed = Capabilities { can_register_starter: false, ..Capabilities::all() };
    let edit = edit_of(starter_of(&db, 1));
    assert_eq!(
        edit_club_starter_with(&mut db, &closed, edit.clone(), PAIR_ACT, SINGLE_ACT, NOW),
        Err(HttpError::StatusCode(403))
    );
    assert_eq!(edit_club_starter(&mut db, &closed, edit.clone()), Err(HttpError::StatusCode(403)));
    assert_eq!(
        add_club_starter_with(&mut db, &closed, new_starter(CLUB, "E", "E"), 5, 1, 2, NOW),
        Err(HttpError::StatusCode(403))
    );
    assert_eq!(
        add_club_starter(&mut db, &closed, new_starter(CLUB, "E", "E")),
        Err(HttpError::StatusCode(403))
    );
    assert_eq!(db, before);
    assert_eq!(
        edit_club_starter_with(&mut db, &all_allowed(), edit, PAIR_ACT, SINGLE_ACT, NOW),
        Ok(EditClubStarterResponse {})
    );
    assert_eq!(
        add_club_starter_with(&mut db, &all_allowed(), new_starter(CLUB, "E", "E"), 5, 1, 2, NOW),
        Ok(AddClubStarterResponse { starter_id: 5 })
    );
}

#[test]
fn requests_draw_fresh_identifiers() {
    let mut db = club_of_four();
    let mut eve = new_starter(CLUB, "Eve", "Ernst");
    eve.single_female = true;
    eve.pair = true;
    eve.partner_name = Some("Cleo Carl".to_string());
    let first = add_club_starter(&mut db, &all_allowed(), eve).unwrap().starter_id;
    let second =
        add_club_starter(&mut db, &all_allowed(), new_starter(CLUB, "Fay", "Funk")).unwrap().starter_id;
    assert_ne!(first, second);
    // time-ordered identifiers carry version 7
    assert_eq!((first >> 76) & 0xf, 7);
    assert_eq!(starter_of(&db, first).partner_id, Some(3));
    assert_eq!(starter_of(&db, 3).partner_id, Some(first));
    assert_eq!(starter_of(&db, 3).partner_name, Some("Eve Ernst".to_string()));
    let single = single_acts_of(&db, first);
    assert_eq!(single.len(), 1);
    // random identifiers carry version 4
    assert_eq!((single[0].id >> 76) & 0xf, 4);
    assert_eq!((single[0].id >> 62) & 0x3, 2);
    assert!(single[0].created_at > 1_700_000_000);
    let mut edit = edit_of(starter_of(&db, second));
    edit.single_male = true;
    assert_eq!(edit_club_starter(&mut db, &all_allowed(), edit), Ok(EditClubStarterResponse {}));
    assert_eq!(single_acts_of(&db, second).len(), 1);
    assert!(links_are_symmetric(&db));
    assert!(singles_follow_flags(&db));
    assert!(partners_have_a_pair_act(&db));
}

#[test]
fn invariants_hold_along_a_sequence_of_operations() {
    let mut db = club_of_four();
    let mut next_id: u128 = 5000;
    let names = ["Anna Alt", "Ben Berg", "Cleo Carl", "Dan Dorn", "No One"];
    for round in 0..40u128 {
        let who = (round * 7 + 3) % 4 + 1;
        let mut edit = edit_of(starter_of(&db, who));
        edit.partner_name = match round % 6 {
            5 => None,
            r => Some(names[((round / 2 + r) % 5) as usize].to_string()),
        };
        edit.pair = round % 5 != 0;
        edit.single_male = round % 3 == 0;
        edit.single_female = false;
        next_id += 2;
        let before = db.clone();
        match update_starter(&mut db, edit, next_id, next_id + 1, NOW + round as i64) {
            Ok(()) => {}
            Err(e) => {
                assert_eq!(e, PairingError::SelfPartner);
                assert_eq!(db, before);
            }
        }
        assert!(links_are_symmetric(&db));
        assert!(singles_follow_flags(&db));
        assert!(partners_have_a_pair_act(&db));
        assert!(pair_acts_join_partners(&db));
    }
}
