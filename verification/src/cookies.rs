//! Cookie text, and the boundary to the `cookie` crate that makes and reads
//! it: the signing and checking of values, the reading of `name=value`
//! pairs and the writing of `Set-Cookie` lines.
//!
//! Everything the crate computes is described here over plain sequences of
//! characters. The functions marked `external_body` make the calls; their
//! contracts are taken from the crate's source and are not proved.

use vstd::prelude::*;
use crate::text::{
    before, is_trimmed, is_whitespace, lemma_before, lemma_before_joined, lemma_trim_of_trimmed,
    trim,
};

verus! {

/// The number of characters of an authentication tag: the base64 form of a
/// 32-byte HMAC-SHA256 digest.
pub const TAG_LEN: usize = 44;

/// The least number of bytes of a signing secret.
pub const MIN_SECRET_LEN: usize = 32;

/// Whether `c` belongs to the padded base64 alphabet.
pub open spec fn is_tag_char(c: char) -> bool {
    ||| 'A' <= c <= 'Z'
    ||| 'a' <= c <= 'z'
    ||| '0' <= c <= '9'
    ||| c == '+'
    ||| c == '/'
    ||| c == '='
}

/// Whether `text` starts with `TAG_LEN` characters of the base64 alphabet.
pub open spec fn has_tag_prefix(text: Seq<char>) -> bool {
    &&& text.len() >= TAG_LEN
    &&& forall|i: int| 0 <= i < TAG_LEN ==> is_tag_char(#[trigger] text[i])
}

/// The authentication tag that `cookie::SignedJar::add` computes for
/// `value` under the key that `cookie::Key::from_master` derives from
/// `secret`: the base64 form of the HMAC-SHA256 digest of the value's bytes.
pub uninterp spec fn signature_of(secret: Seq<u8>, value: Seq<char>) -> Seq<char>;

/// `c` where it is a base64 character.
pub open spec fn as_tag_char(c: char) -> char {
    if is_tag_char(c) {
        c
    } else {
        '='
    }
}

/// The tag of `value` under `secret`, read as what it is: `TAG_LEN`
/// characters of the base64 alphabet.
pub open spec fn tag_of(secret: Seq<u8>, value: Seq<char>) -> Seq<char> {
    Seq::new(TAG_LEN as nat, |i: int| as_tag_char(signature_of(secret, value)[i]))
}

/// The signed form of `value`: its tag, then the value itself.
pub open spec fn signed(secret: Seq<u8>, value: Seq<char>) -> Seq<char> {
    tag_of(secret, value) + value
}

/// The value that `text` authenticates under `secret`: what follows the
/// first `TAG_LEN` characters, where those are the tag of the rest.
pub open spec fn verified(secret: Seq<u8>, text: Seq<char>) -> Option<Seq<char>> {
    if text.len() >= TAG_LEN && text.take(TAG_LEN as int) == tag_of(
        secret,
        text.skip(TAG_LEN as int),
    ) {
        Some(text.skip(TAG_LEN as int))
    } else {
        None
    }
}

/// The name and value that `cookie::Cookie::parse` reads from `text`: the
/// part before the first `;` is split at its first `=` and both halves are
/// trimmed; there is no pair without a `=` or with an empty name.
pub open spec fn parsed_pair(text: Seq<char>) -> Option<(Seq<char>, Seq<char>)> {
    let pair = before(text, ';');
    let name = before(pair, '=');
    if name.len() == pair.len() || trim(name).len() == 0 {
        None
    } else {
        Some((trim(name), trim(pair.skip((name.len() + 1) as int))))
    }
}

/// Whether `line` sets or presents a cookie named `name`.
pub open spec fn names_cookie(line: Seq<char>, name: Seq<char>) -> bool {
    parsed_pair(line) matches Some(pair) && pair.0 == name
}

/// `name=value`, as a client presents a cookie.
pub open spec fn pair_text(name: Seq<char>, value: Seq<char>) -> Seq<char> {
    name + seq!['='] + value
}

/// The value of the cookie `name` that carries `value` under `secret`: the
/// tag of `name=value`, then the value. The tag covers the name, so that a
/// sealed value is good for its own cookie only.
pub open spec fn sealed(secret: Seq<u8>, name: Seq<char>, value: Seq<char>) -> Seq<char> {
    tag_of(secret, pair_text(name, value)) + value
}

/// The value that the text of the cookie `name` carries under `secret`:
/// what follows the first `TAG_LEN` characters, where those are the tag of
/// `name=` and the rest.
pub open spec fn opened(secret: Seq<u8>, name: Seq<char>, text: Seq<char>) -> Option<Seq<char>> {
    if text.len() >= TAG_LEN && text.take(TAG_LEN as int) == tag_of(
        secret,
        pair_text(name, text.skip(TAG_LEN as int)),
    ) {
        Some(text.skip(TAG_LEN as int))
    } else {
        None
    }
}

/// One outgoing cookie: what a `Set-Cookie` line says.
pub struct Cookie {
    pub name: String,
    pub value: String,
    pub path: Option<String>,
    pub domain: Option<String>,
    pub http_only: bool,
    pub secure: bool,
    pub max_age: Option<i64>,
}

/// The mathematical content of a [`Cookie`].
pub ghost struct CookieView {
    pub name: Seq<char>,
    pub value: Seq<char>,
    pub path: Option<Seq<char>>,
    pub domain: Option<Seq<char>>,
    pub http_only: bool,
    pub secure: bool,
    pub max_age: Option<i64>,
}

/// The view of an optional string.
pub open spec fn opt_view(s: Option<String>) -> Option<Seq<char>> {
    match s {
        Some(s) => Some(s@),
        None => None,
    }
}

impl View for Cookie {
    type V = CookieView;

    open spec fn view(&self) -> CookieView {
        CookieView {
            name: self.name@,
            value: self.value@,
            path: opt_view(self.path),
            domain: opt_view(self.domain),
            http_only: self.http_only,
            secure: self.secure,
            max_age: self.max_age,
        }
    }
}

/// The cookie that carries `value` under `name` unless a modifier changes
/// it: bound to the path `/` and hidden from scripts.
pub open spec fn default_cookie(name: Seq<char>, value: Seq<char>) -> CookieView {
    CookieView {
        name,
        value,
        path: Some(seq!['/']),
        domain: None,
        http_only: true,
        secure: false,
        max_age: None,
    }
}

/// The cookie that carries `value` under `key` unless a modifier changes
/// it.
pub fn get_default_cookie(key: String, value: String) -> (cookie: Cookie)
    ensures
        cookie@ == default_cookie(key@, value@),
{
    let cookie = Cookie {
        name: key,
        value: value,
        path: Some("/".to_owned()),
        domain: None,
        http_only: true,
        secure: false,
        max_age: None,
    };
    proof {
        reveal_strlit("/");
        assert(cookie@.path->0 =~= seq!['/']);
    }
    cookie
}

/// The decimal digits of `n`.
pub open spec fn digits(n: nat) -> Seq<char>
    decreases n,
{
    if n < 10 {
        seq![('0' as u8 + n as u8) as char]
    } else {
        digits(n / 10).push(('0' as u8 + (n % 10) as u8) as char)
    }
}

/// `n` as `{}` prints it.
pub open spec fn decimal(n: int) -> Seq<char> {
    if n < 0 {
        seq!['-'] + digits((-n) as nat)
    } else {
        digits(n as nat)
    }
}

/// The attributes of a `Set-Cookie` line, in the order in which the
/// `cookie` crate prints them.
pub open spec fn attributes(c: CookieView) -> Seq<char> {
    (if c.http_only {
        "; HttpOnly"@
    } else {
        Seq::empty()
    }) + (if c.secure {
        "; Secure"@
    } else {
        Seq::empty()
    }) + (match c.path {
        Some(path) => "; Path="@ + path,
        None => Seq::empty(),
    }) + (match c.domain {
        Some(domain) => "; Domain="@ + domain,
        None => Seq::empty(),
    }) + (match c.max_age {
        Some(seconds) => "; Max-Age="@ + decimal(seconds as int),
        None => Seq::empty(),
    })
}

/// The `Set-Cookie` line of `c`.
pub open spec fn rendered(c: CookieView) -> Seq<char> {
    pair_text(c.name, c.value) + attributes(c)
}

/// Signs `value` with `cookie::SignedJar::add`, on a jar of its own and
/// under the key that `cookie::Key::from_master` derives from `secret`, and
/// hands back the value that the jar then holds.
///
/// Claimed of the crate: the stored value is the tag followed by `value`,
/// and the tag is `TAG_LEN` base64 characters. `from_master` panics on a
/// secret of fewer than `MIN_SECRET_LEN` bytes, hence the `requires`.
#[verifier::external_body]
fn sign_value(secret: &Vec<u8>, value: &str) -> (text: String)
    requires
        secret@.len() >= MIN_SECRET_LEN,
    ensures
        text@ == signature_of(secret@, value@) + value@,
        text@.len() == TAG_LEN + value@.len(),
        has_tag_prefix(text@),
{
    let key = cookie::Key::from_master(secret);
    let mut jar = cookie::CookieJar::new();
    jar.signed(&key).add(cookie::Cookie::new("v", value.to_owned()));
    jar.get("v").map(|c| c.value().to_owned()).unwrap_or_default()
}

/// Checks `text` with `cookie::SignedJar::get`, on a jar of its own that
/// holds `text` as its one cookie, under the key that
/// `cookie::Key::from_master` derives from `secret`.
///
/// Claimed of the crate: the cookie is handed out exactly where the first
/// `TAG_LEN` characters of `text` are the tag of the rest, and then with the
/// rest as its value. The crate splits `text` at byte `TAG_LEN`, which
/// panics inside a character; the `requires` keeps those bytes ASCII.
#[verifier::external_body]
fn check_value(secret: &Vec<u8>, text: &str) -> (value: Option<String>)
    requires
        secret@.len() >= MIN_SECRET_LEN,
        has_tag_prefix(text@),
    ensures
        opt_view(value) == verified(secret@, text@),
{
    let key = cookie::Key::from_master(secret);
    let mut jar = cookie::CookieJar::new();
    jar.add_original(cookie::Cookie::new("v", text.to_owned()));
    jar.signed(&key).get("v").map(|c| c.value().to_owned())
}

/// Reads a `name=value` pair with `cookie::Cookie::parse`.
///
/// Claimed of the crate: it finds the pair that `parsed_pair` describes, and
/// fails where that is `None`.
#[verifier::external_body]
pub(crate) fn parse_pair(text: &str) -> (pair: Option<(String, String)>)
    ensures
        match pair {
            Some((name, value)) => parsed_pair(text@) == Some((name@, value@)),
            None => parsed_pair(text@) is None,
        },
{
    cookie::Cookie::parse(text).ok().map(|c| (c.name().to_owned(), c.value().to_owned()))
}

/// Writes the `Set-Cookie` line of `cookie` with the `Display` impl of
/// `cookie::Cookie`.
///
/// Claimed of the crate: it prints `name=value`, then `; HttpOnly`,
/// `; Secure`, `; Path=`, `; Domain=` and `; Max-Age=` for the attributes
/// that are set, in this order.
#[verifier::external_body]
pub(crate) fn set_cookie_line(cookie: &Cookie) -> (line: String)
    ensures
        line@ == rendered(cookie@),
{
    let mut c = cookie::Cookie::new(cookie.name.clone(), cookie.value.clone());
    c.set_http_only(cookie.http_only);
    c.set_secure(cookie.secure);
    if let Some(path) = &cookie.path {
        c.set_path(path.clone());
    }
    if let Some(domain) = &cookie.domain {
        c.set_domain(domain.clone());
    }
    if let Some(seconds) = cookie.max_age {
        c.set_max_age(time::Duration::seconds(seconds));
    }
    c.to_string()
}

/// Whether `c` belongs to the padded base64 alphabet.
fn tag_char(c: char) -> (yes: bool)
    ensures
        yes == is_tag_char(c),
{
    ('A' <= c && c <= 'Z') || ('a' <= c && c <= 'z') || ('0' <= c && c <= '9') || c == '+' || c
        == '/' || c == '='
}

/// Whether `text` starts with `TAG_LEN` base64 characters.
pub fn starts_with_tag(text: &str) -> (yes: bool)
    ensures
        yes == has_tag_prefix(text@),
{
    if text.unicode_len() < TAG_LEN {
        return false;
    }
    let mut i: usize = 0;
    while i < TAG_LEN
        invariant
            i <= TAG_LEN,
            text@.len() >= TAG_LEN,
            forall|j: int| 0 <= j < i ==> is_tag_char(#[trigger] text@[j]),
        decreases TAG_LEN - i,
    {
        if !tag_char(text.get_char(i)) {
            return false;
        }
        i += 1;
    }
    true
}

/// The signed form of `value` under `secret`.
pub fn sign(secret: &Vec<u8>, value: &str) -> (text: String)
    requires
        secret@.len() >= MIN_SECRET_LEN,
    ensures
        text@ == signed(secret@, value@),
{
    let text = sign_value(secret, value);
    proof {
        let sig = signature_of(secret@, value@);
        assert(sig.len() == TAG_LEN);
        assert forall|i: int| 0 <= i < TAG_LEN implies sig[i] == #[trigger] tag_of(
            secret@,
            value@,
        )[i] by {
            assert(text@[i] == sig[i]);
        }
        assert(tag_of(secret@, value@) =~= sig);
    }
    text
}

/// The value that `text` authenticates under `secret`, if it does.
///
/// A text that does not start with a well-formed tag authenticates nothing
/// and is turned away before the `cookie` crate sees it.
pub fn verify(secret: &Vec<u8>, text: &str) -> (value: Option<String>)
    requires
        secret@.len() >= MIN_SECRET_LEN,
    ensures
        opt_view(value) == verified(secret@, text@),
{
    if !starts_with_tag(text) {
        proof {
            if text@.len() >= TAG_LEN {
                let tag = tag_of(secret@, text@.skip(TAG_LEN as int));
                let j = choose|j: int| 0 <= j < TAG_LEN && !is_tag_char(#[trigger] text@[j]);
                assert(is_tag_char(tag[j]));
                assert(text@.take(TAG_LEN as int)[j] == text@[j]);
            }
        }
        return None;
    }
    check_value(secret, text)
}

/// `name=value`.
fn pair(name: &str, value: &str) -> (text: String)
    ensures
        text@ == pair_text(name@, value@),
{
    proof {
        reveal_strlit("=");
    }
    let text = name.to_owned().concat("=").concat(value);
    assert(text@ =~= pair_text(name@, value@));
    text
}

/// The value of the cookie `name` that carries `value` under `secret`.
pub fn seal(secret: &Vec<u8>, name: &str, value: &str) -> (text: String)
    requires
        secret@.len() >= MIN_SECRET_LEN,
    ensures
        text@ == sealed(secret@, name@, value@),
{
    let whole = sign(secret, pair(name, value).as_str());
    let tag = whole.as_str().substring_char(0, TAG_LEN);
    let text = tag.to_owned().concat(value);
    assert(text@ =~= sealed(secret@, name@, value@));
    text
}

/// The value that the text of the cookie `name` carries under `secret`,
/// if it carries one.
pub fn open(secret: &Vec<u8>, name: &str, text: &str) -> (value: Option<String>)
    requires
        secret@.len() >= MIN_SECRET_LEN,
    ensures
        opt_view(value) == opened(secret@, name@, text@),
{
    if !starts_with_tag(text) {
        proof {
            if text@.len() >= TAG_LEN {
                let tag = tag_of(secret@, pair_text(name@, text@.skip(TAG_LEN as int)));
                let j = choose|j: int| 0 <= j < TAG_LEN && !is_tag_char(#[trigger] text@[j]);
                assert(is_tag_char(tag[j]));
                assert(text@.take(TAG_LEN as int)[j] == text@[j]);
            }
        }
        return None;
    }
    let tag = text.substring_char(0, TAG_LEN);
    let value = text.substring_char(TAG_LEN, text.unicode_len());
    let whole = tag.to_owned().concat(pair(name, value).as_str());
    assert(whole@.take(TAG_LEN as int) =~= text@.take(TAG_LEN as int));
    assert(whole@.skip(TAG_LEN as int) =~= pair_text(name@, text@.skip(TAG_LEN as int)));
    assert(value@ =~= text@.skip(TAG_LEN as int));
    match verify(secret, whole.as_str()) {
        Some(_) => Some(value.to_owned()),
        None => None,
    }
}

/// Whether `name` can name a cookie and be read back: it is not empty,
/// holds neither `;` nor `=`, and neither starts nor ends with white space.
pub open spec fn is_cookie_name(name: Seq<char>) -> bool {
    &&& name.len() > 0
    &&& !name.contains(';')
    &&& !name.contains('=')
    &&& is_trimmed(name)
}

/// Whether `value` can follow a tag in a cookie and be read back: it holds
/// no `;` and does not end with white space.
pub open spec fn is_cookie_value(value: Seq<char>) -> bool {
    &&& !value.contains(';')
    &&& value.len() > 0 ==> !is_whitespace(value.last())
}

/// A `name=value` pair is read back as it was written, whatever attributes
/// follow it, where the name is a cookie name and the value holds no `;` and
/// no white space at either end.
pub proof fn lemma_pair_is_read_back(name: Seq<char>, value: Seq<char>, rest: Seq<char>)
    requires
        is_cookie_name(name),
        !value.contains(';'),
        is_trimmed(value),
        rest.len() > 0 ==> rest[0] == ';',
    ensures
        parsed_pair(pair_text(name, value) + rest) == Some((name, value)),
{
    let pair = pair_text(name, value);
    let line = pair + rest;
    assert forall|i: int| 0 <= i < pair.len() implies pair[i] != ';' by {
        if i < name.len() {
            assert(name.contains(name[i]));
        } else if i > name.len() {
            assert(value.contains(value[i - name.len() - 1]));
        }
    }
    if rest.len() == 0 {
        assert(line =~= pair);
        lemma_before(line, ';');
    } else {
        assert(line =~= pair + seq![';'] + rest.skip(1));
        lemma_before_joined(pair, ';', rest.skip(1));
    }
    assert(before(line, ';') == pair);
    lemma_before_joined(name, '=', value);
    assert(before(pair, '=') == name);
    lemma_trim_of_trimmed(name);
    lemma_trim_of_trimmed(value);
    assert(pair.skip((name.len() + 1) as int) =~= value);
}

/// What was sealed opens: the sealed value of a cookie starts with a
/// well-formed tag and carries, under the same secret and name, the value
/// that was sealed.
pub proof fn lemma_sealed_opens(secret: Seq<u8>, name: Seq<char>, value: Seq<char>)
    ensures
        has_tag_prefix(sealed(secret, name, value)),
        opened(secret, name, sealed(secret, name, value)) == Some(value),
{
    let text = sealed(secret, name, value);
    assert(text.take(TAG_LEN as int) =~= tag_of(secret, pair_text(name, value)));
    assert(text.skip(TAG_LEN as int) =~= value);
}

/// Only what was sealed opens: a text that carries a value under a secret
/// and a name is the sealed form of that value under them.
pub proof fn lemma_opened_is_sealed(secret: Seq<u8>, name: Seq<char>, text: Seq<char>)
    ensures
        opened(secret, name, text) matches Some(value) ==> text == sealed(secret, name, value),
{
    if opened(secret, name, text) is Some {
        assert(text =~= text.take(TAG_LEN as int) + text.skip(TAG_LEN as int));
    }
}

/// A change to a sealed value is found out: the changed text does not
/// carry the value, and carries anything only if it is itself the sealed
/// form of what it carries, which nobody can make without the secret. Where
/// only the tag was changed it carries nothing.
pub proof fn lemma_change_is_found_out(
    secret: Seq<u8>,
    name: Seq<char>,
    value: Seq<char>,
    changed: Seq<char>,
)
    requires
        changed != sealed(secret, name, value),
    ensures
        opened(secret, name, changed) != Some(value),
        opened(secret, name, changed) matches Some(other) ==> changed == sealed(
            secret,
            name,
            other,
        ),
        changed.len() >= TAG_LEN && changed.skip(TAG_LEN as int) == value ==> opened(
            secret,
            name,
            changed,
        ) is None,
{
    lemma_opened_is_sealed(secret, name, changed);
}

/// A sealed value is good for its own cookie only: under another name it
/// carries nothing, unless the tag of the value under that name is the
/// same, which nobody can bring about without the secret.
pub proof fn lemma_sealed_for_one_name(
    secret: Seq<u8>,
    name: Seq<char>,
    other: Seq<char>,
    value: Seq<char>,
)
    ensures
        opened(secret, other, sealed(secret, name, value)) is Some ==> tag_of(
            secret,
            pair_text(other, value),
        ) == tag_of(secret, pair_text(name, value)),
{
    let text = sealed(secret, name, value);
    assert(text.take(TAG_LEN as int) =~= tag_of(secret, pair_text(name, value)));
    assert(text.skip(TAG_LEN as int) =~= value);
}

/// The sealed form of a cookie value holds no `;` and no white space at
/// either end.
pub proof fn lemma_sealed_is_clean(secret: Seq<u8>, name: Seq<char>, value: Seq<char>)
    requires
        is_cookie_value(value),
    ensures
        !sealed(secret, name, value).contains(';'),
        is_trimmed(sealed(secret, name, value)),
{
    let text = sealed(secret, name, value);
    let tag = tag_of(secret, pair_text(name, value));
    assert forall|i: int| 0 <= i < text.len() implies text[i] != ';' by {
        if i < TAG_LEN {
            assert(is_tag_char(tag[i]));
        } else {
            assert(value.contains(value[i - TAG_LEN]));
        }
    }
    assert(is_tag_char(tag[0]));
    assert(text[0] == tag[0]);
    if value.len() == 0 {
        assert(is_tag_char(tag[TAG_LEN - 1]));
        assert(text.last() == tag[TAG_LEN - 1]);
    } else {
        assert(text.last() == value.last());
    }
}

/// The attributes of a `Set-Cookie` line are empty or start with `;`.
pub proof fn lemma_attributes_start(c: CookieView)
    ensures
        attributes(c).len() > 0 ==> attributes(c)[0] == ';',
{
    reveal_strlit("; HttpOnly");
    reveal_strlit("; Secure");
    reveal_strlit("; Path=");
    reveal_strlit("; Domain=");
    reveal_strlit("; Max-Age=");
}

} // verus!
