use nrw_freestyle_cup_registration::auth::{require_auth, Auth, Error};
use nrw_freestyle_cup_registration::http_server::{
    reload_db, ClientError, HttpError, HttpServerOptions, ReloadDBQuery, ReloadDBResponse,
};
use nrw_freestyle_cup_registration::jwt::{JWTClaims, VALIDITY_SECONDS};
use nrw_freestyle_cup_registration::query::{is_sonderpokal, require_admin, requested_club};
use nrw_freestyle_cup_registration::registry::{Act, Registry, Starter};
use nrw_freestyle_cup_registration::system_status::{Capabilities, StatusOptions};

fn user(is_admin: bool, club_id: Option<u128>) -> Auth {
    Auth {
        user_id: 42,
        email: "user@example.org".to_string(),
        name: "User".to_string(),
        is_admin,
        club_id,
        email_verified: false,
    }
}

fn server() -> HttpServerOptions {
    HttpServerOptions {
        bind_address: "127.0.0.1:3000".to_string(),
        base_url: "http://localhost:3000".to_string(),
        data_path: "./data".to_string(),
        reload_db_token: "open sesame".to_string(),
    }
}

fn periods() -> StatusOptions {
    StatusOptions { start_register_date: 1000, end_register_date: 2000, end_music_upload_date: 3000 }
}

fn nothing_allowed() -> Capabilities {
    Capabilities {
        can_register: false,
        can_create_club: false,
        can_register_starter: false,
        can_register_judge: false,
        can_upload_music: false,
    }
}

#[test]
fn client_is_told_of_failures() {
    assert_eq!(ClientError::from(HttpError::NotFound), ClientError::NotFound);
    assert_eq!(ClientError::from(HttpError::InternalServerError), ClientError::InternalServerError);
    assert_eq!(ClientError::from(HttpError::InvalidCredentials), ClientError::InvalidCredentials);
    assert_eq!(ClientError::from(HttpError::StatusCode(403)), ClientError::StatusCode(403));
    assert_eq!(
        ClientError::from(HttpError::TemplateError("Fmt(Error)".to_string())),
        ClientError::Generic("Template error: Fmt(Error)".to_string())
    );
    assert_eq!(
        ClientError::from(HttpError::DBError("RowNotFound".to_string())),
        ClientError::Generic("Database error: RowNotFound".to_string())
    );
    assert_eq!(
        ClientError::from(HttpError::MailError("Timeout".to_string())),
        ClientError::Generic("Mail error: Timeout".to_string())
    );
}

#[test]
fn own_messages_reach_the_client_in_debug_rendering() {
    assert_eq!(
        ClientError::from(HttpError::ErrorMessages("No first entry".to_string())),
        ClientError::Generic("\"No first entry\"".to_string())
    );
    assert_eq!(
        ClientError::from(HttpError::ErrorMessages("a \"b\"\n".to_string())),
        ClientError::Generic("\"a \\\"b\\\"\\n\"".to_string())
    );
}

#[test]
fn failures_are_answered_with_a_status() {
    assert_eq!(ClientError::NotFound.status(), 404);
    assert_eq!(ClientError::InternalServerError.status(), 500);
    assert_eq!(ClientError::Generic("x".to_string()).status(), 500);
    assert_eq!(ClientError::InvalidCredentials.status(), 401);
    assert_eq!(ClientError::StatusCode(403).status(), 403);
    assert!(ClientError::StatusCode(403).has_valid_status());
    assert!(ClientError::StatusCode(100).has_valid_status());
    assert!(ClientError::StatusCode(999).has_valid_status());
    assert!(!ClientError::StatusCode(99).has_valid_status());
    assert!(!ClientError::StatusCode(1000).has_valid_status());
    assert!(ClientError::NotFound.has_valid_status());
}

#[test]
fn missing_identity_is_answered_with_a_status_and_a_text() {
    let cases = [
        (Error::AdminRequired, 403, "Admin required"),
        (Error::CookiesMissing, 401, "Cookies missing"),
        (Error::JwtMissing, 401, "JWT missing"),
        (Error::JwtInvalid, 401, "JWT invalid"),
        (Error::UserNotFound, 500, "User not found"),
    ];
    for (error, status, message) in cases {
        assert_eq!(error.status(), status);
        assert_eq!(error.message(), message);
    }
}

#[test]
fn identity_is_required() {
    assert_eq!(require_auth(Ok(Some(user(false, None)))), Ok(user(false, None)));
    assert_eq!(require_auth(Ok(None)), Err(Error::JwtMissing));
    assert_eq!(require_auth(Err(Error::JwtInvalid)), Err(Error::JwtInvalid));
    assert_eq!(require_auth(Err(Error::CookiesMissing)), Err(Error::CookiesMissing));
    assert!(user(true, None).is_admin());
    assert!(!user(false, None).is_admin());
}

#[test]
fn periods_decide_what_is_allowed() {
    let registering = Capabilities { ..Capabilities::all() };
    let upload_only = Capabilities { can_upload_music: true, ..nothing_allowed() };
    assert_eq!(periods().status_at(999), upload_only);
    assert_eq!(periods().status_at(1000), registering);
    assert_eq!(periods().status_at(2000), registering);
    assert_eq!(periods().status_at(2001), upload_only);
    assert_eq!(periods().status_at(3000), upload_only);
    assert_eq!(periods().status_at(3001), nothing_allowed());
}

#[test]
fn administrator_is_allowed_everything() {
    assert_eq!(Capabilities::granted_at(&Some(user(true, None)), &periods(), 5000), Capabilities::all());
    assert_eq!(Capabilities::granted_at(&Some(user(false, None)), &periods(), 5000), nothing_allowed());
    assert_eq!(Capabilities::granted_at(&None, &periods(), 1500), Capabilities::all());
    assert_eq!(Capabilities::granted_at(&None, &periods(), 5000), nothing_allowed());
    assert_eq!(Capabilities::granted_to(&Some(user(true, None)), &periods()), Capabilities::all());
}

#[test]
fn status_follows_the_system_clock() {
    // periods that ended long ago
    assert_eq!(periods().get_system_status(), nothing_allowed());
    assert_eq!(Capabilities::granted_to(&None, &periods()), nothing_allowed());
    // periods that last
    let open = StatusOptions {
        start_register_date: 0,
        end_register_date: i64::MAX,
        end_music_upload_date: i64::MAX,
    };
    assert_eq!(open.get_system_status(), Capabilities::all());
    // periods that have not begun
    let later = StatusOptions {
        start_register_date: i64::MAX,
        end_register_date: i64::MAX,
        end_music_upload_date: i64::MAX,
    };
    assert_eq!(
        later.get_system_status(),
        Capabilities { can_upload_music: true, ..nothing_allowed() }
    );
}

#[test]
fn database_is_read_anew_for_an_administrator_or_the_token() {
    let none = ReloadDBQuery { token: None };
    let wrong = ReloadDBQuery { token: Some("open".to_string()) };
    let right = ReloadDBQuery { token: Some("open sesame".to_string()) };
    assert_eq!(reload_db(&user(true, None), &none, &server()), Ok(ReloadDBResponse {}));
    assert_eq!(reload_db(&user(true, None), &wrong, &server()), Ok(ReloadDBResponse {}));
    assert_eq!(reload_db(&user(false, None), &right, &server()), Ok(ReloadDBResponse {}));
    assert_eq!(reload_db(&user(false, None), &none, &server()), Err(HttpError::StatusCode(403)));
    assert_eq!(reload_db(&user(false, None), &wrong, &server()), Err(HttpError::StatusCode(403)));
}

#[test]
fn club_is_the_named_one_or_the_callers() {
    assert_eq!(requested_club(Some(5), &Some(user(false, Some(7)))), Ok(5));
    assert_eq!(requested_club(Some(5), &None), Ok(5));
    assert_eq!(requested_club(None, &Some(user(false, Some(7)))), Ok(7));
    assert_eq!(requested_club(None, &Some(user(false, None))), Err(HttpError::NotFound));
    assert_eq!(requested_club(None, &None), Err(HttpError::NotFound));
}

#[test]
fn lists_are_for_administrators() {
    assert_eq!(require_admin(&Some(user(true, None))), Ok(()));
    assert_eq!(require_admin(&Some(user(false, None))), Err(HttpError::InvalidCredentials));
    assert_eq!(require_admin(&None), Err(HttpError::InvalidCredentials));
}

fn award_starter(id: u128, single: bool, pair: bool) -> Starter {
    Starter {
        id,
        club_id: 1,
        firstname: String::new(),
        lastname: String::new(),
        birthdate: 0,
        single_sonderpokal: single,
        single_male: true,
        single_female: false,
        pair_sonderpokal: pair,
        pair: true,
        partner_id: None,
        partner_name: None,
    }
}

fn award_act(is_pair: bool, participants: Vec<u128>) -> Act {
    Act {
        id: 1,
        name: String::new(),
        description: None,
        is_pair,
        order: None,
        song_file: None,
        song_file_name: None,
        song_checked: false,
        created_at: 0,
        started_at: None,
        ended_at: None,
        participants,
    }
}

#[test]
fn act_goes_for_the_award_if_a_participant_does() {
    let db = Registry {
        starters: vec![
            award_starter(1, true, false),
            award_starter(2, false, true),
            award_starter(3, false, false),
        ],
        acts: vec![],
    };
    assert!(is_sonderpokal(&db, &award_act(false, vec![1])));
    assert!(!is_sonderpokal(&db, &award_act(false, vec![2])));
    assert!(!is_sonderpokal(&db, &award_act(true, vec![1, 3])));
    assert!(is_sonderpokal(&db, &award_act(true, vec![3, 2])));
    assert!(!is_sonderpokal(&db, &award_act(true, vec![])));
    assert!(!is_sonderpokal(&db, &award_act(false, vec![9])));
}

#[test]
fn token_is_valid_for_six_months() {
    assert_eq!(VALIDITY_SECONDS, 60 * 60 * 24 * 31 * 6);
    let claims = JWTClaims::issued_at(7, 1_750_000_000).unwrap();
    assert_eq!(claims.sub(), 7);
    assert_eq!(claims.exp(), 1_750_000_000 + 16_070_400);
    assert_eq!(claims, JWTClaims::new(7, 1_766_070_400));
    assert_eq!(JWTClaims::issued_at(7, u64::MAX - 16_070_400).unwrap().exp(), u64::MAX);
    assert_eq!(JWTClaims::issued_at(7, u64::MAX - 16_070_399), None);
}
