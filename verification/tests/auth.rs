use sph_notifier::sph_scraper::AuthError;
use sph_notifier::sph_scraper::SphAuthentication;
use sph_notifier::sph_scraper::login_outcome;
use sph_notifier::sph_scraper::session_is_valid;

#[test]
fn empty_credential_has_empty_parts() {
    let a = SphAuthentication::empty();
    assert_eq!(a.sid, "");
    assert_eq!(a.sph_session, "");
}

#[test]
fn token_serializes_both_parts() {
    let a = SphAuthentication::from_cookies(String::from("abc"), String::from("xyz"));
    assert_eq!(a.as_token(), "abc-xyz");
}

#[test]
fn token_round_trips() {
    let a = SphAuthentication::from_cookies(String::from("s1d"), String::from("se55ion"));
    let b = SphAuthentication::from_token(&a.as_token());
    assert_eq!(b.sid, "s1d");
    assert_eq!(b.sph_session, "se55ion");
}

#[test]
fn token_with_extra_dash_keeps_first_two_segments() {
    let a = SphAuthentication::from_token("a-b-c");
    assert_eq!(a.sid, "a");
    assert_eq!(a.sph_session, "b");
}

#[test]
fn cookie_header_names_both_cookies() {
    let a = SphAuthentication::from_cookies(String::from("SID"), String::from("SES"));
    assert_eq!(a.build_cookies(), "SPH-Session=SES; sid=SID");
}

#[test]
fn login_with_both_cookies_succeeds() {
    let r = login_outcome(Some(String::from("i")), Some(String::from("j")));
    match r {
        Ok(a) => {
            assert_eq!(a.sid, "i");
            assert_eq!(a.sph_session, "j");
        }
        Err(_) => panic!("expected a credential"),
    }
}

#[test]
fn login_without_sid_fails() {
    let r = login_outcome(None, Some(String::from("j")));
    assert!(matches!(r, Err(AuthError::MissingSid)));
}

#[test]
fn login_without_session_fails() {
    let r = login_outcome(Some(String::from("i")), None);
    assert!(matches!(r, Err(AuthError::MissingSession)));
}

#[test]
fn probe_sentinel_means_invalid() {
    assert!(!session_is_valid(&String::from("0")));
    assert!(session_is_valid(&String::from("5220")));
    assert!(session_is_valid(&String::from("")));
}
