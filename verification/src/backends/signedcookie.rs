//! Sessions kept in signed cookies: one cookie per key, readable by the
//! client and protected against change by an authentication tag.

use std::sync::Arc;
use vstd::prelude::*;
use crate::cookies::{
    attributes, default_cookie, get_default_cookie, is_cookie_name, is_cookie_value,
    lemma_attributes_start, lemma_change_is_found_out, lemma_pair_is_read_back,
    lemma_sealed_is_clean, lemma_sealed_opens, names_cookie, open, opened, opt_view, pair_text,
    parse_pair, parsed_pair, rendered, seal, sealed, set_cookie_line, Cookie, CookieView,
    MIN_SECRET_LEN, TAG_LEN,
};
use crate::errors::{BackendError, ConfigurationError};
use crate::http::{Request, Response};
use crate::jar::{
    contents, jar_add, jar_add_original, jar_changed_names, jar_changes, jar_get, jar_names,
    jar_new, jar_originals, jar_remove, lists, lookup, without,
};
use crate::text::{is_trimmed, texts_of};
use crate::{RawSession, SessionBackend};

verus! {

/// What one `Cookie` entry contributes to a session under `secret`: its
/// name and authenticated value, or nothing where it cannot be read or
/// does not authenticate.
pub open spec fn accepted_entry(secret: Seq<u8>, entry: Seq<char>) -> Option<
    (Seq<char>, Seq<char>),
> {
    match parsed_pair(entry) {
        Some((name, text)) => match opened(secret, name, text) {
            Some(value) => Some((name, value)),
            None => None,
        },
        None => None,
    }
}

/// The values that a request with these `Cookie` entries brings: each
/// entry that authenticates under `secret`, a later one in place of an
/// earlier one of the same name.
pub open spec fn accepted(secret: Seq<u8>, entries: Seq<Seq<char>>) -> Map<Seq<char>, Seq<char>>
    decreases entries.len(),
{
    if entries.len() == 0 {
        Map::empty()
    } else {
        let earlier = accepted(secret, entries.drop_last());
        match accepted_entry(secret, entries.last()) {
            Some((name, value)) => earlier.insert(name, value),
            None => earlier,
        }
    }
}

/// The changes of a session after it was cleared: a removal for every
/// value that the request brought, and nothing else but the removals that
/// were there before.
pub open spec fn cleared(
    originals: Map<Seq<char>, Seq<char>>,
    changes: Map<Seq<char>, Option<Seq<char>>>,
) -> Map<Seq<char>, Option<Seq<char>>> {
    Map::new(
        |name: Seq<char>|
            originals.contains_key(name) || (changes.contains_key(name) && changes[name] is None),
        |name: Seq<char>| None,
    )
}

/// Whether `output` is what the modifier makes of `input`; without a
/// modifier a cookie stays as it is.
pub open spec fn modified<M: Fn(Cookie) -> Cookie>(
    modifier: Option<Arc<M>>,
    input: CookieView,
    output: CookieView,
) -> bool {
    match modifier {
        Some(m) => exists|c: Cookie, d: Cookie|
            c@ == input && d@ == output && #[trigger] call_ensures(*m, (c,), d),
        None => output == input,
    }
}

/// `c` with its value sealed under `secret`.
pub open spec fn sealed_cookie(secret: Seq<u8>, c: CookieView) -> CookieView {
    CookieView { value: sealed(secret, c.name, c.value), ..c }
}

/// `c` as the cookie that tells a client to delete it: without a value and
/// expiring at once.
pub open spec fn expiring(c: CookieView) -> CookieView {
    CookieView { value: Seq::empty(), max_age: Some(0i64), ..c }
}

/// Whether `out` is the cookie that goes out for the change of `name`: for
/// a value the default cookie, passed through the modifier and then sealed;
/// for a removal the default cookie without a value, passed through the
/// modifier and then made to expire.
pub open spec fn sent<M: Fn(Cookie) -> Cookie>(
    secret: Seq<u8>,
    modifier: Option<Arc<M>>,
    name: Seq<char>,
    change: Option<Seq<char>>,
    out: CookieView,
) -> bool {
    match change {
        Some(value) => exists|m: CookieView| #[trigger]
            modified(modifier, default_cookie(name, value), m) && out == sealed_cookie(secret, m),
        None => exists|m: CookieView| #[trigger]
            modified(modifier, default_cookie(name, Seq::empty()), m) && out == expiring(m),
    }
}

/// Whether `outs` are the cookies that go out for `changes`, one for each
/// changed name, in the order of `names`.
pub open spec fn flushed<M: Fn(Cookie) -> Cookie>(
    secret: Seq<u8>,
    modifier: Option<Arc<M>>,
    changes: Map<Seq<char>, Option<Seq<char>>>,
    names: Seq<Seq<char>>,
    outs: Seq<CookieView>,
) -> bool {
    &&& lists(names, changes.dom())
    &&& outs.len() == names.len()
    &&& forall|i: int|
        0 <= i < names.len() ==> sent(
            secret,
            modifier,
            names[i],
            changes[names[i]],
            #[trigger] outs[i],
        )
}

/// Whether one of `lines` already sets a cookie with the name of one of
/// `outs`.
pub open spec fn clashes(lines: Seq<Seq<char>>, outs: Seq<CookieView>) -> bool {
    exists|i: int, j: int|
        0 <= i < lines.len() && 0 <= j < outs.len() && clash(
            #[trigger] lines[i],
            #[trigger] outs[j],
        )
}

/// Whether `line` sets a cookie with the name of `out`.
pub open spec fn clash(line: Seq<char>, out: CookieView) -> bool {
    names_cookie(line, out.name)
}

/// The `Set-Cookie` lines of `outs`.
pub open spec fn lines_of(outs: Seq<CookieView>) -> Seq<Seq<char>> {
    outs.map_values(|c: CookieView| rendered(c))
}

/// The views of `cookies`.
pub open spec fn views(cookies: Seq<Cookie>) -> Seq<CookieView> {
    cookies.map_values(|c: Cookie| c@)
}

/// Makes a second handle on what `a` points to: `Arc::clone`.
#[verifier::external_body]
fn share<T>(a: &Arc<T>) -> (b: Arc<T>)
    ensures
        b == *a,
{
    a.clone()
}

/// The signing secret and the cookie modifier that a backend and its
/// sessions share.
pub struct Signer<M: Fn(Cookie) -> Cookie> {
    signing_key: Arc<Vec<u8>>,
    cookie_modifier: Option<Arc<M>>,
}

impl<M: Fn(Cookie) -> Cookie> Signer<M> {
    #[verifier::type_invariant]
    spec fn inv(self) -> bool {
        &&& self.signing_key@.len() >= MIN_SECRET_LEN
        &&& self.cookie_modifier matches Some(m) ==> forall|c: Cookie| call_requires(*m, (c,))
    }

    /// The signing secret.
    pub closed spec fn secret(&self) -> Seq<u8> {
        self.signing_key@
    }

    /// The function that every outgoing cookie passes through.
    pub closed spec fn modifier(&self) -> Option<Arc<M>> {
        self.cookie_modifier
    }

    /// A signer with this secret and without a modifier.
    pub fn new(signing_key: Vec<u8>) -> (signer: Self)
        requires
            signing_key@.len() >= MIN_SECRET_LEN,
        ensures
            signer.secret() == signing_key@,
            signer.modifier() is None,
    {
        Signer { signing_key: Arc::new(signing_key), cookie_modifier: None }
    }

    /// A signer with the same secret that lets every outgoing cookie pass
    /// through `f` before it is signed.
    pub fn with_modifier(&self, f: M) -> (signer: Self)
        requires
            forall|c: Cookie| call_requires(f, (c,)),
        ensures
            signer.secret() == self.secret(),
            signer.modifier() == Some(Arc::new(f)),
    {
        proof {
            use_type_invariant(self);
        }
        Signer { signing_key: share(&self.signing_key), cookie_modifier: Some(Arc::new(f)) }
    }

    /// A second handle on the same secret and modifier.
    pub fn share(&self) -> (other: Self)
        ensures
            other.secret() == self.secret(),
            other.modifier() == self.modifier(),
    {
        proof {
            use_type_invariant(self);
        }
        Signer {
            signing_key: share(&self.signing_key),
            cookie_modifier: match &self.cookie_modifier {
                Some(m) => Some(share(m)),
                None => None,
            },
        }
    }

    /// What the modifier makes of `cookie`.
    fn modify(&self, cookie: Cookie) -> (out: Cookie)
        ensures
            modified(self.modifier(), cookie@, out@),
    {
        proof {
            use_type_invariant(self);
        }
        match &self.cookie_modifier {
            Some(m) => {
                let f: &M = &*m;
                let ghost input = cookie;
                let out = f(cookie);
                assert(call_ensures(**m, (input,), out));
                out
            },
            None => cookie,
        }
    }

    /// The cookie that goes out for the change of `name`.
    pub fn outgoing(&self, name: &str, change: Option<String>) -> (out: Cookie)
        ensures
            sent(self.secret(), self.modifier(), name@, opt_view(change), out@),
    {
        proof {
            use_type_invariant(self);
        }
        match change {
            Some(value) => {
                let mut out = self.modify(get_default_cookie(name.to_owned(), value));
                let ghost m = out@;
                out.value = seal(&self.signing_key, out.name.as_str(), out.value.as_str());
                assert(out@ == sealed_cookie(self.secret(), m));
                out
            },
            None => {
                let mut out = self.modify(get_default_cookie(name.to_owned(), String::new()));
                let ghost m = out@;
                out.value = String::new();
                out.max_age = Some(0);
                assert(out@ == expiring(m));
                out
            },
        }
    }

    /// What the cookie entry `entry` contributes to a session.
    pub fn accept(&self, entry: &str) -> (pair: Option<(String, String)>)
        ensures
            match pair {
                Some((name, value)) => accepted_entry(self.secret(), entry@) == Some(
                    (name@, value@),
                ),
                None => accepted_entry(self.secret(), entry@) is None,
            },
    {
        proof {
            use_type_invariant(self);
        }
        match parse_pair(entry) {
            Some((name, text)) => match open(&self.signing_key, name.as_str(), text.as_str()) {
                Some(value) => Some((name, value)),
                None => None,
            },
            None => None,
        }
    }
}

/// A session whose values live in signed cookies.
///
/// It holds what the request brought and what was changed since. Values
/// are authenticated once, when the session is made, and signed once, when
/// it is written: reading and changing it computes nothing.
pub struct SignedCookieSession<M: Fn(Cookie) -> Cookie> {
    unsigned_jar: cookie::CookieJar,
    signer: Signer<M>,
}

impl<M: Fn(Cookie) -> Cookie> SignedCookieSession<M> {
    /// The signing secret.
    pub closed spec fn secret(&self) -> Seq<u8> {
        self.signer.secret()
    }

    /// The function that every outgoing cookie passes through.
    pub closed spec fn modifier(&self) -> Option<Arc<M>> {
        self.signer.modifier()
    }

    /// The values that the request brought, by key.
    pub closed spec fn originals(&self) -> Map<Seq<char>, Seq<char>> {
        jar_originals(self.unsigned_jar)
    }

    /// The changes made while the request was handled, by key: the value
    /// that was set, `None` where a value of the request was removed.
    pub closed spec fn changes(&self) -> Map<Seq<char>, Option<Seq<char>>> {
        jar_changes(self.unsigned_jar)
    }

    /// The session that a request with these `Cookie` entries brings.
    pub fn from_entries(signer: Signer<M>, entries: &Vec<String>) -> (session: Self)
        ensures
            session.originals() == accepted(signer.secret(), texts_of(entries@)),
            session.changes() == (Map::<Seq<char>, Option<Seq<char>>>::empty()),
            session.secret() == signer.secret(),
            session.modifier() == signer.modifier(),
    {
        let mut jar = jar_new();
        let mut i: usize = 0;
        while i < entries.len()
            invariant
                i <= entries.len(),
                jar_originals(jar) == accepted(signer.secret(), texts_of(entries@).take(i as int)),
                jar_changes(jar) == (Map::<Seq<char>, Option<Seq<char>>>::empty()),
            decreases entries.len() - i,
        {
            let ghost seen = texts_of(entries@).take(i as int + 1);
            assert(seen.drop_last() == texts_of(entries@).take(i as int));
            assert(seen.last() == entries@[i as int]@);
            if let Some((name, value)) = signer.accept(entries[i].as_str()) {
                jar_add_original(&mut jar, name.as_str(), value.as_str());
            }
            i += 1;
        }
        assert(texts_of(entries@).take(i as int) == texts_of(entries@));
        SignedCookieSession { unsigned_jar: jar, signer }
    }

    /// The cookies that go out for the changes of this session.
    fn outgoing(&self) -> (found: (Vec<String>, Vec<Cookie>))
        ensures
            flushed(
                self.secret(),
                self.modifier(),
                self.changes(),
                texts_of(found.0@),
                views(found.1@),
            ),
    {
        let names = jar_changed_names(&self.unsigned_jar);
        let mut outs: Vec<Cookie> = Vec::new();
        let mut i: usize = 0;
        while i < names.len()
            invariant
                i <= names.len(),
                outs.len() == i,
                lists(texts_of(names@), self.changes().dom()),
                forall|j: int|
                    0 <= j < i ==> sent(
                        self.secret(),
                        self.modifier(),
                        texts_of(names@)[j],
                        self.changes()[texts_of(names@)[j]],
                        #[trigger] views(outs@)[j],
                    ),
            decreases names.len() - i,
        {
            let name = names[i].as_str();
            assert(texts_of(names@).contains(texts_of(names@)[i as int]));
            let change = jar_get(&self.unsigned_jar, name);
            let out = self.signer.outgoing(name, change);
            let ghost before = views(outs@);
            outs.push(out);
            assert forall|j: int| 0 <= j < i + 1 implies sent(
                self.secret(),
                self.modifier(),
                texts_of(names@)[j],
                self.changes()[texts_of(names@)[j]],
                #[trigger] views(outs@)[j],
            ) by {
                if j < i {
                    assert(views(outs@)[j] == before[j]);
                }
            }
            i += 1;
        }
        (names, outs)
    }
}

/// Whether one of `outs` has the name `name`.
fn names_one(outs: &Vec<Cookie>, name: &String) -> (yes: bool)
    ensures
        yes == exists|j: int| 0 <= j < outs.len() && (#[trigger] views(outs@)[j]).name == name@,
{
    let mut j: usize = 0;
    while j < outs.len()
        invariant
            j <= outs.len(),
            forall|k: int| 0 <= k < j ==> (#[trigger] views(outs@)[k]).name != name@,
        decreases outs.len() - j,
    {
        if outs[j].name == *name {
            assert(views(outs@)[j as int].name == name@);
            return true;
        }
        j += 1;
    }
    false
}

/// Whether one of `lines` already sets a cookie with the name of one of
/// `outs`.
pub fn find_clash(lines: &Vec<String>, outs: &Vec<Cookie>) -> (yes: bool)
    ensures
        yes == clashes(texts_of(lines@), views(outs@)),
{
    let mut i: usize = 0;
    while i < lines.len()
        invariant
            i <= lines.len(),
            forall|k: int, j: int|
                0 <= k < i && 0 <= j < outs.len() ==> !clash(
                    #[trigger] texts_of(lines@)[k],
                    #[trigger] views(outs@)[j],
                ),
        decreases lines.len() - i,
    {
        if let Some((name, _)) = parse_pair(lines[i].as_str()) {
            if names_one(outs, &name) {
                let ghost j = choose|j: int|
                    0 <= j < outs.len() && (#[trigger] views(outs@)[j]).name == name@;
                assert(clash(texts_of(lines@)[i as int], views(outs@)[j]));
                return true;
            }
        }
        i += 1;
    }
    false
}

impl<M: Fn(Cookie) -> Cookie> RawSession for SignedCookieSession<M> {
    open spec fn view(&self) -> Map<Seq<char>, Seq<char>> {
        contents(self.originals(), self.changes())
    }

    open spec fn never_fails(&self) -> bool {
        true
    }

    /// The value of `key`: the one set while the request was handled, else
    /// the one that the request brought.
    fn get_raw(&self, key: &str) -> (found: Result<Option<String>, BackendError>)
        ensures
            found matches Ok(value) && opt_view(value) == lookup(
                self.originals(),
                self.changes(),
                key@,
            ),
    {
        Ok(jar_get(&self.unsigned_jar, key))
    }

    open spec fn stores(&self, key: Seq<char>, value: Seq<char>, after: &Self) -> bool {
        &&& after.originals() == self.originals()
        &&& after.changes() == self.changes().insert(key, Some(value))
        &&& after.secret() == self.secret()
        &&& after.modifier() == self.modifier()
    }

    /// Records `value` as the new value of `key`.
    fn set_raw(&mut self, key: &str, value: String) -> (done: Result<(), BackendError>)
    {
        jar_add(&mut self.unsigned_jar, key, value.as_str());
        assert(final(self).view() =~= old(self).view().insert(key@, value@));
        Ok(())
    }

    open spec fn clears(&self, after: &Self) -> bool {
        &&& after.originals() == self.originals()
        &&& after.changes() == cleared(self.originals(), self.changes())
        &&& after.secret() == self.secret()
        &&& after.modifier() == self.modifier()
    }

    /// Removes every value. What the request brought is recorded as
    /// removed, one cookie at a time, so that the client is told to delete
    /// it: the jar's own `clear` would forget those cookies without a trace.
    fn clear(&mut self) -> (done: Result<(), BackendError>)
    {
        let names = jar_names(&self.unsigned_jar);
        let ghost originals = self.originals();
        let ghost start = self.changes();
        let mut i: usize = 0;
        while i < names.len()
            invariant
                i <= names.len(),
                lists(texts_of(names@), contents(originals, start).dom()),
                self.originals() == originals,
                self.secret() == old(self).secret(),
                self.modifier() == old(self).modifier(),
                forall|name: Seq<char>|
                    texts_of(names@).take(i as int).contains(name) ==> (
                    #[trigger] self.changes().contains_key(name)) == originals.contains_key(name)
                        && (originals.contains_key(name) ==> self.changes()[name] is None),
                forall|name: Seq<char>|
                    !texts_of(names@).take(i as int).contains(name) ==> (
                    #[trigger] self.changes().contains_key(name)) == start.contains_key(name)
                        && (start.contains_key(name) ==> self.changes()[name] == start[name]),
            decreases names.len() - i,
        {
            let ghost done = texts_of(names@).take(i as int);
            let ghost next = texts_of(names@).take(i as int + 1);
            let ghost current = texts_of(names@)[i as int];
            assert(next.drop_last() == done);
            assert(next.last() == current);
            assert forall|name: Seq<char>| next.contains(name) <==> done.contains(name) || name
                == current by {
                if done.contains(name) {
                    let k = choose|k: int| 0 <= k < done.len() && done[k] == name;
                    assert(next[k] == name);
                }
                if name == current {
                    assert(next[i as int] == name);
                }
            }
            assert(!done.contains(current)) by {
                if done.contains(current) {
                    let k = choose|k: int| 0 <= k < done.len() && done[k] == current;
                    assert(texts_of(names@)[k] == texts_of(names@)[i as int]);
                }
            }
            let ghost previous = self.changes();
            jar_remove(&mut self.unsigned_jar, names[i].as_str());
            assert(self.changes() == without(originals, previous, current));
            assert forall|name: Seq<char>| next.contains(name) implies (
            #[trigger] self.changes().contains_key(name)) == originals.contains_key(name) && (
            originals.contains_key(name) ==> self.changes()[name] is None) by {
                if name != current {
                    assert(done.contains(name));
                    assert(previous.contains_key(name) == originals.contains_key(name));
                }
            }
            assert forall|name: Seq<char>| !next.contains(name) implies (
            #[trigger] self.changes().contains_key(name)) == start.contains_key(name) && (
            start.contains_key(name) ==> self.changes()[name] == start[name]) by {
                assert(name != current);
                assert(!done.contains(name));
                assert(previous.contains_key(name) == start.contains_key(name));
            }
            i += 1;
        }
        assert(texts_of(names@).take(i as int) == texts_of(names@));
        assert forall|name: Seq<char>| #[trigger]
            self.changes().contains_key(name) == cleared(originals, start).contains_key(
                name,
            ) && (self.changes().contains_key(name) ==> self.changes()[name] is None) by {
            if texts_of(names@).contains(name) {
                assert(lookup(originals, start, name) is Some);
            } else {
                assert(!contents(originals, start).dom().contains(name));
                assert(lookup(originals, start, name) is None);
            }
        }
        assert(self.changes() =~= cleared(originals, start));
        assert(final(self).view() =~= Map::<Seq<char>, Seq<char>>::empty());
        Ok(())
    }

    open spec fn writes(
        &self,
        before: Response,
        after: Response,
        done: Result<(), BackendError>,
    ) -> bool {
        exists|names: Seq<Seq<char>>, outs: Seq<CookieView>|
            {
                &&& #[trigger] flushed(self.secret(), self.modifier(), self.changes(), names, outs)
                &&& if clashes(before.lines(), outs) {
                    done is Err && after == before
                } else {
                    &&& done is Ok
                    &&& after.set_cookie is Some
                    &&& after.lines() == before.lines() + lines_of(outs)
                }
            }
    }

    /// Puts the changes of this session on `response`: one `Set-Cookie`
    /// line for each changed key, after the lines that the response already
    /// has. Where one of those lines sets a cookie of the same name as one
    /// that would go out, nothing is written and the call fails.
    fn write(&self, response: &mut Response) -> (done: Result<(), BackendError>)
    {
        let (names, outs) = self.outgoing();
        let ghost already = response.lines();
        let clash = match &response.set_cookie {
            Some(lines) => find_clash(lines, &outs),
            None => false,
        };
        if clash {
            assert(flushed(
                self.secret(),
                self.modifier(),
                self.changes(),
                texts_of(names@),
                views(outs@),
            ));
            return Err(
                BackendError::new("the response already sets a cookie of the session".to_owned()),
            );
        }
        let mut lines = match response.set_cookie.take() {
            Some(lines) => lines,
            None => Vec::new(),
        };
        assert(texts_of(lines@) == already);
        let mut i: usize = 0;
        while i < outs.len()
            invariant
                i <= outs.len(),
                texts_of(lines@) == already + lines_of(views(outs@)).take(i as int),
            decreases outs.len() - i,
        {
            let line = set_cookie_line(&outs[i]);
            let ghost before = texts_of(lines@);
            lines.push(line);
            assert(texts_of(lines@) =~= before.push(line@));
            assert(lines_of(views(outs@)).take(i as int + 1) =~= lines_of(views(outs@)).take(
                i as int,
            ).push(line@));
            i += 1;
        }
        assert(lines_of(views(outs@)).take(i as int) == lines_of(views(outs@)));
        response.set_cookie = Some(lines);
        assert(flushed(
            self.secret(),
            self.modifier(),
            self.changes(),
            texts_of(names@),
            views(outs@),
        ));
        Ok(())
    }
}

/// The backend that keeps sessions in signed cookies.
///
/// The secret has to be random and at least `MIN_SECRET_LEN` bytes long.
/// Whoever knows it can forge sessions; when it changes, every session that
/// was issued under it is lost. What is stored in a session can be read by
/// the client, but not changed.
pub struct SignedCookieBackend<M: Fn(Cookie) -> Cookie> {
    signer: Signer<M>,
}

impl<M: Fn(Cookie) -> Cookie> SignedCookieBackend<M> {
    /// The signing secret.
    pub closed spec fn secret(&self) -> Seq<u8> {
        self.signer.secret()
    }

    /// The function that every outgoing cookie passes through.
    pub closed spec fn modifier(&self) -> Option<Arc<M>> {
        self.signer.modifier()
    }

    /// A backend that signs with `signing_key` and leaves outgoing cookies
    /// as they are.
    pub fn new(signing_key: Vec<u8>) -> (backend: Self)
        requires
            signing_key@.len() >= MIN_SECRET_LEN,
        ensures
            backend.secret() == signing_key@,
            backend.modifier() is None,
    {
        SignedCookieBackend { signer: Signer::new(signing_key) }
    }

    /// A backend that signs with `signing_key`, unless the key is too short
    /// to derive a signing key from.
    pub fn try_new(signing_key: Vec<u8>) -> (made: Result<Self, ConfigurationError>)
        ensures
            made is Ok <==> signing_key@.len() >= MIN_SECRET_LEN,
            made matches Ok(backend) ==> backend.secret() == signing_key@
                && backend.modifier() is None,
    {
        if signing_key.len() >= MIN_SECRET_LEN {
            Ok(Self::new(signing_key))
        } else {
            Err(ConfigurationError::new("the signing secret is shorter than 32 bytes".to_owned()))
        }
    }

    /// Lets every outgoing cookie pass through `f` before it is signed.
    pub fn set_cookie_modifier(&mut self, f: M)
        requires
            forall|c: Cookie| call_requires(f, (c,)),
        ensures
            final(self).secret() == old(self).secret(),
            final(self).modifier() == Some(Arc::new(f)),
    {
        self.signer = self.signer.with_modifier(f);
    }
}

impl<M: Fn(Cookie) -> Cookie + Send + Sync + 'static> SessionBackend for SignedCookieBackend<M> {
    type S = SignedCookieSession<M>;

    open spec fn reads(&self, entries: Seq<Seq<char>>, session: Self::S) -> bool {
        &&& session.originals() == accepted(self.secret(), entries)
        &&& session.changes() == Map::<Seq<char>, Option<Seq<char>>>::empty()
        &&& session.secret() == self.secret()
        &&& session.modifier() == self.modifier()
    }

    /// The session that `request` brings: the values of the cookies that
    /// authenticate under the secret, and no change yet. A cookie that
    /// cannot be read or does not authenticate is passed over.
    fn from_request(&self, request: &mut Request<Self::S>) -> (session: Self::S)
    {
        let signer = self.signer.share();
        match request.cookies() {
            Some(entries) => SignedCookieSession::from_entries(signer, entries),
            None => {
                let entries: Vec<String> = Vec::new();
                assert(texts_of(entries@) =~= Seq::<Seq<char>>::empty());
                SignedCookieSession::from_entries(signer, &entries)
            },
        }
    }
}

/// What was set comes back. A session without a modifier that holds
/// `value` as the pending value of `key` writes a `Set-Cookie` line for it;
/// a request that presents that line, or its `name=value` part, as its one
/// cookie brings a session that holds `value` under `key`, and nothing
/// else.
///
/// This is so for every key that is a cookie name and every value that
/// holds no `;` and does not end with white space: the cookie syntax cuts
/// any other.
pub proof fn lemma_round_trip<M: Fn(Cookie) -> Cookie>(
    session: SignedCookieSession<M>,
    key: Seq<char>,
    value: Seq<char>,
    names: Seq<Seq<char>>,
    outs: Seq<CookieView>,
    i: int,
)
    requires
        session.modifier() is None,
        session.changes().contains_key(key),
        session.changes()[key] == Some(value),
        flushed(session.secret(), session.modifier(), session.changes(), names, outs),
        0 <= i < names.len(),
        names[i] == key,
        is_cookie_name(key),
        is_cookie_value(value),
    ensures
        lines_of(outs)[i] == rendered(sealed_cookie(session.secret(), default_cookie(key, value))),
        accepted(session.secret(), seq![lines_of(outs)[i]]) == map![key => value],
        accepted(
            session.secret(),
            seq![pair_text(key, sealed(session.secret(), key, value))],
        ) == map![key => value],
        contents(accepted(session.secret(), seq![lines_of(outs)[i]]), Map::empty()).get(key)
            == Some(value),
{
    let secret = session.secret();
    let out = outs[i];
    assert(sent(secret, session.modifier(), names[i], session.changes()[names[i]], out));
    let m = choose|m: CookieView| #[trigger]
        modified(session.modifier(), default_cookie(key, value), m) && out == sealed_cookie(secret, m);
    assert(m == default_cookie(key, value));
    let text = sealed(secret, key, value);
    let line = rendered(out);
    assert(line == pair_text(key, text) + attributes(out));
    lemma_sealed_is_clean(secret, key, value);
    lemma_sealed_opens(secret, key, value);
    lemma_attributes_start(out);
    lemma_pair_is_read_back(key, text, attributes(out));
    lemma_pair_is_read_back(key, text, Seq::empty());
    assert(pair_text(key, text) + Seq::<char>::empty() =~= pair_text(key, text));
    assert(accepted_entry(secret, line) == Some((key, value)));
    assert(accepted_entry(secret, pair_text(key, text)) == Some((key, value)));
    let one = seq![line];
    assert(one.drop_last() =~= Seq::<Seq<char>>::empty());
    assert(accepted(secret, one.drop_last()) =~= Map::<Seq<char>, Seq<char>>::empty());
    assert(accepted(secret, one) =~= map![key => value]);
    let pair = seq![pair_text(key, text)];
    assert(pair.drop_last() =~= Seq::<Seq<char>>::empty());
    assert(accepted(secret, pair.drop_last()) =~= Map::<Seq<char>, Seq<char>>::empty());
    assert(accepted(secret, pair) =~= map![key => value]);
}

/// Clearing twice is clearing once: a second `clear` leaves the changes of
/// a cleared session as they are, and a cleared session holds no value
/// under any key.
pub proof fn lemma_clear_is_idempotent(
    originals: Map<Seq<char>, Seq<char>>,
    changes: Map<Seq<char>, Option<Seq<char>>>,
    key: Seq<char>,
)
    ensures
        cleared(originals, cleared(originals, changes)) == cleared(originals, changes),
        contents(originals, cleared(originals, changes)) == Map::<Seq<char>, Seq<char>>::empty(),
        lookup(originals, cleared(originals, changes), key) is None,
{
    assert(cleared(originals, cleared(originals, changes)) =~= cleared(originals, changes));
    assert(contents(originals, cleared(originals, changes)) =~= Map::<
        Seq<char>,
        Seq<char>,
    >::empty());
}

/// Setting one key leaves every other key as it was: present with the same
/// value, or absent.
pub proof fn lemma_set_leaves_other_keys(
    originals: Map<Seq<char>, Seq<char>>,
    changes: Map<Seq<char>, Option<Seq<char>>>,
    key: Seq<char>,
    value: Seq<char>,
    other: Seq<char>,
)
    requires
        other != key,
    ensures
        lookup(originals, changes.insert(key, Some(value)), other) == lookup(
            originals,
            changes,
            other,
        ),
        lookup(originals, changes.insert(key, Some(value)), key) == Some(value),
{
}

/// Whether `entry` brings a value for `key`.
pub open spec fn brings_for(secret: Seq<u8>, entry: Seq<char>, key: Seq<char>) -> bool {
    accepted_entry(secret, entry) matches Some(pair) && pair.0 == key
}

/// Among cookies of one name the last that authenticates counts: where the
/// entry at `i` brings `value` for `key` and no later entry brings anything
/// for `key`, the session holds `value` under `key`, whatever the other
/// entries are.
pub proof fn lemma_last_cookie_counts(
    secret: Seq<u8>,
    entries: Seq<Seq<char>>,
    i: int,
    key: Seq<char>,
    value: Seq<char>,
)
    requires
        0 <= i < entries.len(),
        accepted_entry(secret, entries[i]) == Some((key, value)),
        forall|j: int| i < j < entries.len() ==> !brings_for(secret, #[trigger] entries[j], key),
    ensures
        accepted(secret, entries).get(key) == Some(value),
    decreases entries.len(),
{
    let last = entries.len() - 1;
    let earlier = entries.drop_last();
    if i < last {
        assert(earlier[i] == entries[i]);
        assert forall|j: int| i < j < earlier.len() implies !brings_for(
            secret,
            #[trigger] earlier[j],
            key,
        ) by {
            assert(earlier[j] == entries[j]);
        }
        lemma_last_cookie_counts(secret, earlier, i, key, value);
        assert(!brings_for(secret, entries[last], key));
    }
}

/// Whether `entry`, if it is a cookie named `key`, fails to authenticate
/// under `secret`.
pub open spec fn brings_nothing_for(secret: Seq<u8>, entry: Seq<char>, key: Seq<char>) -> bool {
    match parsed_pair(entry) {
        Some((name, text)) => name == key ==> opened(secret, name, text) is None,
        None => true,
    }
}

/// A key whose cookies do not authenticate is absent: where every entry
/// that names `key` fails to verify under the secret, be it forged, changed
/// or signed under another secret, the session that the request brings
/// holds nothing under `key`.
pub proof fn lemma_unverified_is_absent(secret: Seq<u8>, entries: Seq<Seq<char>>, key: Seq<char>)
    requires
        forall|i: int|
            0 <= i < entries.len() ==> brings_nothing_for(secret, #[trigger] entries[i], key),
    ensures
        !accepted(secret, entries).contains_key(key),
        lookup(accepted(secret, entries), Map::empty(), key) is None,
    decreases entries.len(),
{
    if entries.len() > 0 {
        let earlier = entries.drop_last();
        assert forall|i: int| 0 <= i < earlier.len() implies brings_nothing_for(
            secret,
            #[trigger] earlier[i],
            key,
        ) by {
            assert(earlier[i] == entries[i]);
        }
        lemma_unverified_is_absent(secret, earlier, key);
        assert(brings_nothing_for(secret, entries[entries.len() - 1], key));
    }
}

/// A cookie that was changed is found out. Where a client presents, under
/// a cookie name, a text other than the sealed form of `value`, the session
/// never holds `value` under that name; it holds something only if the text
/// is itself the sealed form of what it holds, and it holds nothing if only
/// the tag was changed.
///
/// The text is taken as the client's cookie value as it stands: without
/// `;` and without white space at either end.
pub proof fn lemma_changed_cookie_is_found_out(
    secret: Seq<u8>,
    key: Seq<char>,
    value: Seq<char>,
    changed: Seq<char>,
)
    requires
        is_cookie_name(key),
        !changed.contains(';'),
        is_trimmed(changed),
        changed != sealed(secret, key, value),
    ensures
        accepted(secret, seq![pair_text(key, changed)]).get(key) != Some(value),
        accepted(secret, seq![pair_text(key, changed)]).get(key) matches Some(other) ==> changed
            == sealed(secret, key, other),
        changed.len() >= TAG_LEN && changed.skip(TAG_LEN as int) == value ==> accepted(
            secret,
            seq![pair_text(key, changed)],
        ) == Map::<Seq<char>, Seq<char>>::empty(),
{
    lemma_change_is_found_out(secret, key, value, changed);
    lemma_pair_is_read_back(key, changed, Seq::empty());
    assert(pair_text(key, changed) + Seq::<char>::empty() =~= pair_text(key, changed));
    let one = seq![pair_text(key, changed)];
    assert(one.drop_last() =~= Seq::<Seq<char>>::empty());
    assert(accepted(secret, one.drop_last()) =~= Map::<Seq<char>, Seq<char>>::empty());
    assert(one.last() == pair_text(key, changed));
    match opened(secret, key, changed) {
        Some(other) => {
            assert(accepted(secret, one) =~= map![key => other]);
        },
        None => {
            assert(accepted(secret, one) =~= Map::<Seq<char>, Seq<char>>::empty());
        },
    }
}

/// A session without changes writes no line: whatever is flushed for no
/// change is no cookie at all.
pub proof fn lemma_no_change_no_line<M: Fn(Cookie) -> Cookie>(
    secret: Seq<u8>,
    modifier: Option<Arc<M>>,
    names: Seq<Seq<char>>,
    outs: Seq<CookieView>,
)
    requires
        flushed(secret, modifier, Map::<Seq<char>, Option<Seq<char>>>::empty(), names, outs),
    ensures
        outs.len() == 0,
        lines_of(outs) == Seq::<Seq<char>>::empty(),
        !clashes(Seq::<Seq<char>>::empty(), outs),
{
    if names.len() > 0 {
        assert(names.contains(names[0]));
    }
    assert(lines_of(outs) =~= Seq::<Seq<char>>::empty());
}

} // verus!
