//! Sessions for request handlers: a typed key-value store per client that
//! is read from the cookies of a request and written back to the cookies
//! of the response.
//!
//! A [`SessionBackend`] makes a [`RawSession`] for each request; the
//! [`SessionStorage`] middleware attaches it to the request as a
//! [`Session`], runs the handler and, if the handler changed the session,
//! writes it to the response. `backends::signedcookie` keeps the values in
//! signed cookies on the client.

pub mod backends;
pub mod client;
pub mod cookies;
pub mod errors;
pub mod http;
pub mod jar;
pub mod text;
pub mod traits;

use vstd::prelude::*;
use crate::cookies::opt_view;
use crate::errors::BackendError;
use crate::http::{Failure, Request, Response};

verus! {

/// A string-to-string store behind a [`Session`]. After the request was
/// handled, `write` gives the backend the chance to set cookies on the
/// response.
pub trait RawSession {
    /// The stored values, by key.
    open spec fn view(&self) -> Map<Seq<char>, Seq<char>> {
        arbitrary()
    }

    /// Whether no operation of this session ever fails.
    open spec fn never_fails(&self) -> bool {
        false
    }

    /// The value stored under `key`. An absent key is no error.
    fn get_raw(&self, key: &str) -> (found: Result<Option<String>, BackendError>)
        ensures
            found matches Ok(value) ==> opt_view(value) == self.view().get(key@),
            self.never_fails() ==> found is Ok,
    ;

    /// Whether storing `value` under `key` may turn this session into
    /// `after`.
    open spec fn stores(&self, key: Seq<char>, value: Seq<char>, after: &Self) -> bool {
        true
    }

    /// Stores `value` under `key`, in place of what was there.
    fn set_raw(&mut self, key: &str, value: String) -> (done: Result<(), BackendError>)
        ensures
            done is Ok ==> final(self).view() == old(self).view().insert(key@, value@),
            done is Ok ==> old(self).stores(key@, value@, final(self)),
            final(self).never_fails() == old(self).never_fails(),
            old(self).never_fails() ==> done is Ok,
    ;

    /// Whether removing every value may turn this session into `after`.
    open spec fn clears(&self, after: &Self) -> bool {
        true
    }

    /// Removes every value.
    fn clear(&mut self) -> (done: Result<(), BackendError>)
        ensures
            done is Ok ==> final(self).view() == (Map::<Seq<char>, Seq<char>>::empty()),
            done is Ok ==> old(self).clears(final(self)),
            final(self).never_fails() == old(self).never_fails(),
            old(self).never_fails() ==> done is Ok,
    ;

    /// Whether writing this session may turn the response `before` into
    /// `after` and end with `done`.
    open spec fn writes(
        &self,
        before: Response,
        after: Response,
        done: Result<(), BackendError>,
    ) -> bool {
        true
    }

    /// Puts the session on `response`. The lines that the response already
    /// has stay in front; a failure leaves the response as it was.
    fn write(&self, response: &mut Response) -> (done: Result<(), BackendError>)
        ensures
            self.writes(*old(response), *final(response), done),
            done is Ok ==> old(response).lines().is_prefix_of(final(response).lines()),
            done is Err ==> *final(response) == *old(response),
    ;
}

/// The maker of sessions: one per request, from what the request brings.
pub trait SessionBackend: Send + Sync + 'static {
    /// The kind of session that this backend makes.
    type S: RawSession;

    /// Whether `session` is what this backend may read from a request
    /// with these `Cookie` entries.
    open spec fn reads(&self, entries: Seq<Seq<char>>, session: Self::S) -> bool {
        true
    }

    /// Reads the session from `request`, and leaves the request as it is.
    fn from_request(&self, request: &mut Request<Self::S>) -> (session: Self::S)
        ensures
            self.reads(old(request).entries(), session),
            final(request).header() == old(request).header(),
            final(request).slot() == old(request).slot(),
    ;
}

/// A typed window on the string-to-string store: a type stands for a key,
/// a value of the type for what is stored under it.
pub trait Value: Sized {
    /// The key under which values of this type are stored.
    open spec fn key() -> Seq<char> {
        arbitrary()
    }

    /// The stored form of `self`.
    open spec fn encoded(self) -> Seq<char> {
        arbitrary()
    }

    /// The value that `raw` stands for, if any.
    open spec fn decoded(raw: Seq<char>) -> Option<Self> {
        arbitrary()
    }

    /// The key: constant and not empty.
    fn get_key() -> (key: &'static str)
        ensures
            key@ == Self::key(),
            key@.len() > 0,
    ;

    /// Turns the value into its stored form. Never fails.
    fn into_raw(self) -> (raw: String)
        ensures
            raw@ == self.encoded(),
    ;

    /// Reads a stored form. `None` where it is not one of this type.
    fn from_raw(value: String) -> (decoded: Option<Self>)
        ensures
            decoded == Self::decoded(value@),
    ;
}

/// What a typed read finds in `store`: the decoded value under the key of
/// `T`, where there is one and it decodes.
pub open spec fn typed<T: Value>(store: Map<Seq<char>, Seq<char>>) -> Option<T> {
    match store.get(T::key()) {
        Some(raw) => T::decoded(raw),
        None => None,
    }
}

/// The interface through which a handler reads and changes session data.
pub struct Session<S> {
    inner: S,
    has_changed: bool,
}

impl<S: RawSession> Session<S> {
    /// The stored values, by key.
    pub closed spec fn view(&self) -> Map<Seq<char>, Seq<char>> {
        self.inner.view()
    }

    /// The store behind this session.
    pub closed spec fn raw(&self) -> S {
        self.inner
    }

    /// Whether `set` or `clear` was called.
    pub closed spec fn changed(&self) -> bool {
        self.has_changed
    }

    /// A session on `s` that counts as unchanged.
    pub fn new(s: S) -> (session: Self)
        ensures
            session.raw() == s,
            session@ == s.view(),
            !session.changed(),
    {
        Session { inner: s, has_changed: false }
    }

    /// Whether `set` or `clear` was called.
    pub fn has_changed(&self) -> (yes: bool)
        ensures
            yes == self.changed(),
    {
        self.has_changed
    }

    /// Reads the value of type `T`. A key that is absent, and a stored form
    /// that does not decode, both give `None`.
    pub fn get<T: Value>(&self) -> (found: Result<Option<T>, BackendError>)
        ensures
            found matches Ok(value) ==> value == typed::<T>(self@),
            self.raw().never_fails() ==> found is Ok,
    {
        match self.inner.get_raw(T::get_key()) {
            Ok(Some(raw)) => Ok(T::from_raw(raw)),
            Ok(None) => Ok(None),
            Err(e) => Err(e),
        }
    }

    /// Stores `t` under the key of its type and marks the session changed.
    pub fn set<T: Value>(&mut self, t: T) -> (done: Result<(), BackendError>)
        ensures
            final(self).changed(),
            done is Ok ==> final(self)@ == old(self)@.insert(T::key(), t.encoded()),
            done is Ok ==> old(self).raw().stores(T::key(), t.encoded(), &final(self).raw()),
            final(self).raw().never_fails() == old(self).raw().never_fails(),
            old(self).raw().never_fails() ==> done is Ok,
    {
        self.has_changed = true;
        self.inner.set_raw(T::get_key(), t.into_raw())
    }

    /// Removes every value and marks the session changed.
    pub fn clear(&mut self) -> (done: Result<(), BackendError>)
        ensures
            final(self).changed(),
            done is Ok ==> final(self)@ == (Map::<Seq<char>, Seq<char>>::empty()),
            done is Ok ==> old(self).raw().clears(&final(self).raw()),
            final(self).raw().never_fails() == old(self).raw().never_fails(),
            old(self).raw().never_fails() ==> done is Ok,
    {
        self.has_changed = true;
        self.inner.clear()
    }
}

/// The access to the session of a request while it is handled.
pub trait SessionRequestExt<S: RawSession> {
    /// The session that is attached, if one is.
    open spec fn attached(&self) -> Option<Session<S>> {
        arbitrary()
    }

    /// The session of this request. There is one from the moment the
    /// middleware has taken the request until the handler returns.
    fn session(&mut self) -> (session: &mut Session<S>)
        requires
            old(self).attached() is Some,
        ensures
            *session == old(self).attached()->0,
            final(self).attached() == Some(*final(session)),
    ;
}

impl<S: RawSession> SessionRequestExt<S> for Request<S> {
    open spec fn attached(&self) -> Option<Session<S>> {
        self.slot()
    }

    fn session(&mut self) -> (session: &mut Session<S>)
        ensures
            final(self).header() == old(self).header(),
    {
        self.session_mut()
    }
}

/// Whether `out` is what goes out instead of `result` after the session
/// was written with the outcome `done`, the response having become `after`:
/// the same result with the response as written, or the failure to write
/// with a response that sets no cookie.
pub open spec fn flushed_result(
    result: Result<Response, Failure>,
    after: Response,
    done: Result<(), BackendError>,
    out: Result<Response, Failure>,
) -> bool {
    match done {
        Ok(_) => match result {
            Ok(_) => out == Ok::<Response, Failure>(after),
            Err(failure) => out == Err::<Response, Failure>(
                Failure { cause: failure.cause, response: after },
            ),
        },
        Err(e) => out matches Err(failure) && failure.cause == e.cause
            && failure.response.set_cookie is None,
    }
}

/// Whether `out` is what finishing a request hands on for the handler's
/// `result`, the request's session being `session`: the result as it is
/// where the session was not changed, else the result of writing the
/// session to the response that `result` carries.
pub open spec fn finished<S: RawSession>(
    session: Session<S>,
    result: Result<Response, Failure>,
    out: Result<Response, Failure>,
) -> bool {
    if session.changed() {
        exists|after: Response, done: Result<(), BackendError>|
            {
                &&& #[trigger] session.raw().writes(response_of(result), after, done)
                &&& done is Ok ==> response_of(result).lines().is_prefix_of(after.lines())
                &&& done is Err ==> after == response_of(result)
                &&& flushed_result(result, after, done, out)
            }
    } else {
        out == result
    }
}

/// The response that a handler's result carries.
pub open spec fn response_of(result: Result<Response, Failure>) -> Response {
    match result {
        Ok(response) => response,
        Err(failure) => failure.response,
    }
}

/// The middleware: it gives each request its session before the handler
/// runs and writes the session to the response afterwards.
pub struct SessionStorage<B: SessionBackend> {
    backend: B,
}

impl<B: SessionBackend> SessionStorage<B> {
    /// The backend that makes the sessions.
    pub closed spec fn backend(&self) -> B {
        self.backend
    }

    /// A middleware that stores sessions with `backend`.
    pub fn new(backend: B) -> (storage: Self)
        ensures
            storage.backend() == backend,
    {
        SessionStorage { backend: backend }
    }

    /// Before the handler runs, from idle to session attached: reads the
    /// session from `request` and attaches it, unchanged so far.
    pub fn begin(&self, request: &mut Request<B::S>)
        ensures
            final(request).header() == old(request).header(),
            final(request).slot() matches Some(session) && !session.changed()
                && self.backend().reads(old(request).entries(), session.raw()),
    {
        let s = self.backend.from_request(request);
        request.attach(Session::new(s));
    }

    /// After the handler has returned `result`, from handler ran to
    /// flushed: takes the session off `request`, so that nothing can touch
    /// it again, and, only if it was changed, writes it to the response that
    /// `result` carries, be that the handler's response or the response of
    /// its failure. An unchanged session leaves `result` as it is; a session
    /// that cannot be written turns it into a failure.
    pub fn finish(&self, request: &mut Request<B::S>, result: Result<Response, Failure>) -> (out:
        Result<Response, Failure>)
        requires
            old(request).slot() is Some,
        ensures
            final(request).slot() is None,
            final(request).header() == old(request).header(),
            finished(old(request).slot()->0, result, out),
    {
        let s = match request.detach() {
            Some(s) => s,
            None => {
                return result;
            },
        };
        if !s.has_changed {
            return result;
        }
        match result {
            Ok(mut response) => {
                let ghost before = response;
                let done = s.inner.write(&mut response);
                assert(s.raw().writes(before, response, done));
                match done {
                    Ok(_) => Ok(response),
                    Err(e) => Err(Failure { cause: e.cause, response: Response::new() }),
                }
            },
            Err(mut failure) => {
                let ghost before = failure.response;
                let done = s.inner.write(&mut failure.response);
                assert(s.raw().writes(before, failure.response, done));
                match done {
                    Ok(_) => Err(failure),
                    Err(e) => Err(Failure { cause: e.cause, response: Response::new() }),
                }
            },
        }
    }

    /// Handles one request: attaches the session, runs `handler`, and
    /// finishes with what the handler left. The handler is given the
    /// request with a fresh, unchanged session attached; the request ends
    /// without a session. A handler that has taken the session off the
    /// request has its result passed on as it is.
    pub fn around<H: FnOnce(&mut Request<B::S>) -> Result<Response, Failure>>(
        &self,
        request: &mut Request<B::S>,
        handler: H,
    ) -> (out: Result<Response, Failure>)
        requires
            forall|q: &mut Request<B::S>| (*q).slot() is Some ==> call_requires(handler, (q,)),
        ensures
            final(request).slot() is None,
            exists|q: &mut Request<B::S>, result: Result<Response, Failure>|
                {
                    &&& #[trigger] call_ensures(handler, (q,), result)
                    &&& (*q).header() == old(request).header()
                    &&& (*q).slot() matches Some(session) && !session.changed()
                        && self.backend().reads(old(request).entries(), session.raw())
                    &&& final(request).header() == (*final(q)).header()
                    &&& match (*final(q)).slot() {
                        Some(session) => finished(session, result, out),
                        None => out == result,
                    }
                },
    {
        self.begin(request);
        let result = handler(request);
        if request.has_session() {
            self.finish(request, result)
        } else {
            result
        }
    }
}

/// A session that was only read leaves the response alone: where neither
/// `set` nor `clear` was called, finishing the request hands on the
/// handler's result as it is.
pub proof fn lemma_unchanged_passes_through<S: RawSession>(
    session: Session<S>,
    result: Result<Response, Failure>,
    out: Result<Response, Failure>,
)
    requires
        !session.changed(),
        finished(session, result, out),
    ensures
        out == result,
{
}

/// Setting one key leaves every other key of a store as it was: present
/// with the same value, or absent.
pub proof fn lemma_other_keys_stay(
    store: Map<Seq<char>, Seq<char>>,
    key: Seq<char>,
    value: Seq<char>,
    other: Seq<char>,
)
    requires
        other != key,
    ensures
        store.insert(key, value).get(other) == store.get(other),
        store.insert(key, value).contains_key(other) == store.contains_key(other),
{
}

/// What was set is what is read: after a value of type `T` was stored, a
/// typed read finds what its stored form decodes to.
pub proof fn lemma_typed_read_after_set<T: Value>(store: Map<Seq<char>, Seq<char>>, t: T)
    ensures
        typed::<T>(store.insert(T::key(), t.encoded())) == T::decoded(t.encoded()),
{
}

/// Nothing is read from a store without values.
pub proof fn lemma_nothing_in_an_empty_store<T: Value>()
    ensures
        typed::<T>(Map::<Seq<char>, Seq<char>>::empty()) is None,
{
}

} // verus!
