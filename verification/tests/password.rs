use nrw_freestyle_cup_registration::utils::check_password;

#[test]
fn short_password_is_refused() {
    assert_eq!(
        check_password("Ab1!"),
        Err("Passwort muss mindestens 8 Zeichen haben.".to_string())
    );
}

#[test]
fn three_classes_are_enough() {
    assert_eq!(check_password("Abcdefg1"), Ok(()));
    assert_eq!(check_password("abcdefg1!"), Ok(()));
    assert_eq!(check_password("ABCDEFG1 "), Ok(()));
}

#[test]
fn two_classes_are_refused() {
    assert_eq!(
        check_password("abcdefgh1"),
        Err("Passwort muss mindestens 3 der folgenden Kategorien enthalten: Kleinbuchstaben, Großbuchstaben, Zahlen, Sonderzeichen.".to_string())
    );
}

#[test]
fn length_counts_bytes() {
    // seven characters, eight bytes
    assert_eq!(check_password("Abcde1§"), Ok(()));
}
