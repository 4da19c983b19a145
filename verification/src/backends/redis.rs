//! What a server-side session store needs of the cookie layer: the one
//! unsigned cookie that carries the identifier of the session.
//!
//! The store itself is reached over the network and is not part of this
//! library. A backend for it finds its session identifier with
//! `session_id` and announces it with `write_session_id`.

use rand::Rng;
use vstd::prelude::*;
use crate::cookies::{
    names_cookie, opt_view, pair_text, parse_pair, parsed_pair, set_cookie_line, Cookie,
};
use crate::errors::BackendError;
use crate::http::Response;
use crate::jar::{jar_add_original, jar_changes, jar_get, jar_new, jar_originals};
use crate::text::texts_of;

verus! {

/// The name of the cookie that carries the session identifier.
pub const COOKIE_NAME: &'static str = "iron_session_id";

/// The length of a fresh session identifier.
pub const SESSION_ID_LEN: usize = 40;

/// Whether `c` is one of `A-Z`, `a-z`, `0-9`.
pub open spec fn is_id_char(c: char) -> bool {
    ||| 'A' <= c <= 'Z'
    ||| 'a' <= c <= 'z'
    ||| '0' <= c <= '9'
}

/// Whether `text` has `len` characters, each a letter or a digit.
pub open spec fn is_random_text(text: Seq<char>, len: nat) -> bool {
    &&& text.len() == len
    &&& forall|i: int| 0 <= i < text.len() ==> is_id_char(#[trigger] text[i])
}

/// The cookies that a request with these `Cookie` entries presents, by
/// name: each entry that can be read, a later one in place of an earlier
/// one of the same name.
pub open spec fn presented(entries: Seq<Seq<char>>) -> Map<Seq<char>, Seq<char>>
    decreases entries.len(),
{
    if entries.len() == 0 {
        Map::empty()
    } else {
        let earlier = presented(entries.drop_last());
        match parsed_pair(entries.last()) {
            Some((name, value)) => earlier.insert(name, value),
            None => earlier,
        }
    }
}

/// Draws `len` characters with `rand::Rng::gen_ascii_chars` from the
/// operating system's generator, `rand::OsRng`.
///
/// Claimed of the crate: each character is one of `A-Z`, `a-z`, `0-9`.
/// Which ones is left open, and so is whether the generator can be had.
#[verifier::external_body]
fn random_text(len: usize) -> (text: Option<String>)
    ensures
        text matches Some(t) ==> is_random_text(t@, len as nat),
{
    match rand::OsRng::new() {
        Ok(mut rng) => Some(rng.gen_ascii_chars().take(len).collect()),
        Err(_) => None,
    }
}

/// The session identifier that a request with these `Cookie` entries
/// presents: the value of its cookie named `COOKIE_NAME`.
pub fn presented_session_id(entries: &Vec<String>) -> (id: Option<String>)
    ensures
        opt_view(id) == presented(texts_of(entries@)).get(COOKIE_NAME@),
{
    let mut jar = jar_new();
    let mut i: usize = 0;
    while i < entries.len()
        invariant
            i <= entries.len(),
            jar_originals(jar) == presented(texts_of(entries@).take(i as int)),
            jar_changes(jar) == (Map::<Seq<char>, Option<Seq<char>>>::empty()),
        decreases entries.len() - i,
    {
        let ghost seen = texts_of(entries@).take(i as int + 1);
        assert(seen.drop_last() == texts_of(entries@).take(i as int));
        assert(seen.last() == entries@[i as int]@);
        if let Some((name, value)) = parse_pair(entries[i].as_str()) {
            jar_add_original(&mut jar, name.as_str(), value.as_str());
        }
        i += 1;
    }
    assert(texts_of(entries@).take(i as int) == texts_of(entries@));
    jar_get(&jar, COOKIE_NAME)
}

/// The session identifier of a request with these `Cookie` entries: the
/// one it presents, else a fresh random one of `SESSION_ID_LEN` letters and
/// digits. `None` only where a fresh one is needed and the operating
/// system's random generator cannot be had.
pub fn session_id(entries: &Vec<String>) -> (id: Option<String>)
    ensures
        presented(texts_of(entries@)).get(COOKIE_NAME@) matches Some(p) ==> opt_view(id) == Some(
            p,
        ),
        presented(texts_of(entries@)).get(COOKIE_NAME@) is None ==> (id matches Some(fresh)
            ==> is_random_text(fresh@, SESSION_ID_LEN as nat)),
{
    match presented_session_id(entries) {
        Some(p) => Some(p),
        None => random_text(SESSION_ID_LEN),
    }
}

/// Whether one of `lines` sets a cookie named `name`.
pub open spec fn sets(lines: Seq<Seq<char>>, name: Seq<char>) -> bool {
    exists|i: int| 0 <= i < lines.len() && names_cookie(#[trigger] lines[i], name)
}

/// Whether one of `lines` sets a cookie named `name`.
pub fn find_cookie(lines: &Vec<String>, name: &str) -> (yes: bool)
    ensures
        yes == sets(texts_of(lines@), name@),
{
    let wanted = name.to_owned();
    let mut i: usize = 0;
    while i < lines.len()
        invariant
            i <= lines.len(),
            wanted@ == name@,
            forall|k: int| 0 <= k < i ==> !names_cookie(#[trigger] texts_of(lines@)[k], name@),
        decreases lines.len() - i,
    {
        if let Some((found, _)) = parse_pair(lines[i].as_str()) {
            if found == wanted {
                assert(names_cookie(texts_of(lines@)[i as int], name@));
                return true;
            }
        }
        i += 1;
    }
    false
}

/// Announces the session identifier on `response`: the line
/// `iron_session_id=` and the identifier, after the lines that the response
/// already has. Where one of those sets a cookie of that name, nothing is
/// written and the call fails.
pub fn write_session_id(session_id: &str, response: &mut Response) -> (done: Result<
    (),
    BackendError,
>)
    ensures
        if sets(old(response).lines(), COOKIE_NAME@) {
            done is Err && *final(response) == *old(response)
        } else {
            &&& done is Ok
            &&& final(response).set_cookie is Some
            &&& final(response).lines() == old(response).lines().push(
                pair_text(COOKIE_NAME@, session_id@),
            )
        },
{
    let taken = match &response.set_cookie {
        Some(lines) => find_cookie(lines, COOKIE_NAME),
        None => false,
    };
    if taken {
        return Err(
            BackendError::new("the response already sets the session identifier".to_owned()),
        );
    }
    let cookie = Cookie {
        name: COOKIE_NAME.to_owned(),
        value: session_id.to_owned(),
        path: None,
        domain: None,
        http_only: false,
        secure: false,
        max_age: None,
    };
    let line = set_cookie_line(&cookie);
    assert(line@ =~= pair_text(COOKIE_NAME@, session_id@));
    let ghost already = response.lines();
    let mut lines = match response.set_cookie.take() {
        Some(lines) => lines,
        None => Vec::new(),
    };
    assert(texts_of(lines@) == already);
    lines.push(line);
    assert(texts_of(lines@) =~= already.push(line@));
    response.set_cookie = Some(lines);
    Ok(())
}

} // verus!
