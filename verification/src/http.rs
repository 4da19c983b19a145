//! The part of a request and of a response that sessions read and write:
//! the entries of the `Cookie` header, the lines of the `Set-Cookie` header
//! and the slot in which a request carries its session.

use vstd::prelude::*;
use crate::text::texts_of;
use crate::Session;

verus! {

/// What a session backend reads of a request, and the slot that holds the
/// session while the request is handled.
pub struct Request<S> {
    cookies: Option<Vec<String>>,
    session: Option<Session<S>>,
}

/// What a session backend writes of a response.
pub struct Response {
    /// The lines of the `Set-Cookie` header; `None` where the response has
    /// no such header.
    pub set_cookie: Option<Vec<String>>,
}

/// A handler's failure: its cause and the response that goes out instead.
pub struct Failure {
    /// What went wrong, for a human reader.
    pub cause: String,
    /// The response that reports the failure.
    pub response: Response,
}

/// The texts of an optional list: none where there is no list.
pub open spec fn texts(list: Option<Vec<String>>) -> Seq<Seq<char>> {
    match list {
        Some(v) => texts_of(v@),
        None => Seq::empty(),
    }
}

impl Response {
    /// The `Set-Cookie` lines of this response, in order.
    pub open spec fn lines(&self) -> Seq<Seq<char>> {
        texts(self.set_cookie)
    }

    /// A response without a `Set-Cookie` header.
    pub fn new() -> (r: Self)
        ensures
            r.set_cookie is None,
            r.lines() == Seq::<Seq<char>>::empty(),
    {
        Response { set_cookie: None }
    }
}

impl<S> Request<S> {
    /// The `Cookie` header: one `name=value` entry per cookie, `None` where
    /// the request has no such header.
    pub closed spec fn header(&self) -> Option<Vec<String>> {
        self.cookies
    }

    /// The entries of the `Cookie` header, in order.
    pub open spec fn entries(&self) -> Seq<Seq<char>> {
        texts(self.header())
    }

    /// The session in this request's slot.
    pub closed spec fn slot(&self) -> Option<Session<S>> {
        self.session
    }

    /// A request with these `Cookie` entries and an empty slot.
    pub fn new(cookies: Option<Vec<String>>) -> (r: Self)
        ensures
            r.header() == cookies,
            r.slot() is None,
    {
        Request { cookies, session: None }
    }

    /// The `Cookie` header.
    pub fn cookies(&self) -> (header: &Option<Vec<String>>)
        ensures
            *header == self.header(),
    {
        &self.cookies
    }

    /// Whether a session is attached.
    pub fn has_session(&self) -> (yes: bool)
        ensures
            yes == self.slot() is Some,
    {
        self.session.is_some()
    }

    /// The session in the slot.
    pub fn session_mut(&mut self) -> (session: &mut Session<S>)
        requires
            old(self).slot() is Some,
        ensures
            *session == old(self).slot()->0,
            final(self).slot() == Some(*final(session)),
            final(self).header() == old(self).header(),
    {
        self.session.as_mut().unwrap()
    }

    /// Puts `session` into the slot and hands out what was there.
    pub fn attach(&mut self, session: Session<S>) -> (previous: Option<Session<S>>)
        ensures
            final(self).slot() == Some(session),
            final(self).header() == old(self).header(),
            previous == old(self).slot(),
    {
        let previous = self.session.take();
        self.session = Some(session);
        previous
    }

    /// Empties the slot and hands out what was there.
    pub fn detach(&mut self) -> (session: Option<Session<S>>)
        ensures
            final(self).slot() is None,
            final(self).header() == old(self).header(),
            session == old(self).slot(),
    {
        self.session.take()
    }
}

} // verus!
