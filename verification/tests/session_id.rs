use iron_sessionstorage::backends::redis::{
    find_cookie, presented_session_id, session_id, write_session_id,
    COOKIE_NAME, SESSION_ID_LEN,
};
use iron_sessionstorage::http::Response;

#[test]
fn the_presented_identifier_is_found() {
    assert_eq!(COOKIE_NAME, "iron_session_id");
    assert_eq!(presented_session_id(&vec![]), None);
    assert_eq!(presented_session_id(&vec!["a=b".to_owned(), "broken".to_owned()]), None);
    let entries = vec![
        "theme=dark".to_owned(),
        "iron_session_id=first".to_owned(),
        " iron_session_id = second ".to_owned(),
        "other=x".to_owned(),
    ];
    assert_eq!(presented_session_id(&entries), Some("second".to_owned()));
    assert_eq!(session_id(&entries), Some("second".to_owned()));
    assert_eq!(
        presented_session_id(&vec!["iron_session_id=".to_owned()]),
        Some(String::new())
    );
}

#[test]
fn a_fresh_identifier_is_forty_letters_and_digits() {
    assert_eq!(SESSION_ID_LEN, 40);
    let first = session_id(&vec!["theme=dark".to_owned()]).expect("a random generator");
    let second = session_id(&vec![]).expect("a random generator");
    for id in [&first, &second].iter() {
        assert_eq!(id.chars().count(), 40);
        assert!(id.chars().all(|c| c.is_ascii_alphanumeric()));
    }
    assert_ne!(first, second);
}

#[test]
fn the_identifier_is_announced_after_the_other_cookies() {
    let mut response = Response::new();
    assert!(write_session_id("abc", &mut response).is_ok());
    assert_eq!(response.set_cookie, Some(vec!["iron_session_id=abc".to_owned()]));

    let mut response = Response { set_cookie: Some(vec!["theme=dark; Path=/".to_owned()]) };
    assert!(write_session_id("abc", &mut response).is_ok());
    assert_eq!(
        response.set_cookie,
        Some(vec!["theme=dark; Path=/".to_owned(), "iron_session_id=abc".to_owned()])
    );

    let mut response = Response::new();
    assert!(write_session_id("", &mut response).is_ok());
    assert_eq!(response.set_cookie, Some(vec!["iron_session_id=".to_owned()]));
}

#[test]
fn an_identifier_that_is_already_set_fails_the_write() {
    let existing = vec!["theme=dark".to_owned(), "iron_session_id=other; Path=/".to_owned()];
    let mut response = Response { set_cookie: Some(existing.clone()) };
    let done = write_session_id("abc", &mut response);
    assert_eq!(
        done.err().unwrap().description(),
        "the response already sets the session identifier"
    );
    assert_eq!(response.set_cookie, Some(existing));
}

#[test]
fn find_cookie_reads_names_as_the_cookie_crate_does() {
    let lines = vec![
        "a=1".to_owned(),
        "  spaced  = 2 ; Secure".to_owned(),
        "no pair".to_owned(),
        "=nameless".to_owned(),
        "x;y=1".to_owned(),
        "k=v=w".to_owned(),
    ];
    assert!(find_cookie(&lines, "a"));
    assert!(find_cookie(&lines, "spaced"));
    assert!(find_cookie(&lines, "k"));
    assert!(!find_cookie(&lines, "  spaced  "));
    assert!(!find_cookie(&lines, "no pair"));
    assert!(!find_cookie(&lines, ""));
    assert!(!find_cookie(&lines, "y"));
    assert!(!find_cookie(&lines, "x"));
    assert!(!find_cookie(&lines, "k=v"));
    assert!(!find_cookie(&vec![], "a"));
}
