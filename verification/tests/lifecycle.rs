use iron_sessionstorage::backends::signedcookie::{SignedCookieBackend, SignedCookieSession};
use iron_sessionstorage::backends::SignedCookieBackend as ReexportedBackend;
use iron_sessionstorage::cookies::{seal, Cookie};
use iron_sessionstorage::errors::BackendError;
use iron_sessionstorage::http::{Failure, Request, Response};
use iron_sessionstorage::traits::SessionRequestExt;
use iron_sessionstorage::{RawSession, Session, SessionBackend, SessionStorage, Value};
use std::collections::BTreeMap;

type Plain = fn(Cookie) -> Cookie;
type Signed = SignedCookieSession<Plain>;

const SECRET: &[u8] = b"0123456789abcdef0123456789abcdef";

struct Counter(u64);

impl Value for Counter {
    fn get_key() -> &'static str {
        "counter"
    }
    fn into_raw(self) -> String {
        self.0.to_string()
    }
    fn from_raw(value: String) -> Option<Self> {
        value.parse().ok().map(Counter)
    }
}

struct Login {
    username: String,
}

impl Value for Login {
    fn get_key() -> &'static str {
        "logged_in_user"
    }
    fn into_raw(self) -> String {
        self.username
    }
    fn from_raw(value: String) -> Option<Self> {
        if value.is_empty() {
            None
        } else {
            Some(Login { username: value })
        }
    }
}

/// A store in memory that can be told to fail, and that announces itself
/// with one cookie.
struct Memory {
    values: BTreeMap<String, String>,
    broken: bool,
}

impl Memory {
    fn new() -> Self {
        Memory { values: BTreeMap::new(), broken: false }
    }
    fn check(&self) -> Result<(), BackendError> {
        if self.broken {
            Err(BackendError::new("the store is down".to_owned()))
        } else {
            Ok(())
        }
    }
}

impl RawSession for Memory {
    fn get_raw(&self, key: &str) -> Result<Option<String>, BackendError> {
        self.check()?;
        Ok(self.values.get(key).cloned())
    }
    fn set_raw(&mut self, key: &str, value: String) -> Result<(), BackendError> {
        self.check()?;
        self.values.insert(key.to_owned(), value);
        Ok(())
    }
    fn clear(&mut self) -> Result<(), BackendError> {
        self.check()?;
        self.values.clear();
        Ok(())
    }
    fn write(&self, response: &mut Response) -> Result<(), BackendError> {
        self.check()?;
        let mut lines = response.set_cookie.take().unwrap_or_default();
        lines.push(format!("memory={}", self.values.len()));
        response.set_cookie = Some(lines);
        Ok(())
    }
}

struct MemoryBackend {
    broken: bool,
}

impl SessionBackend for MemoryBackend {
    type S = Memory;

    fn from_request(&self, _request: &mut Request<Memory>) -> Memory {
        let mut memory = Memory::new();
        memory.broken = self.broken;
        memory
    }
}

fn storage() -> SessionStorage<SignedCookieBackend<Plain>> {
    SessionStorage::new(SignedCookieBackend::new(SECRET.to_vec()))
}

fn pair_of(line: &str) -> String {
    line.split(';').next().unwrap().to_owned()
}

#[test]
fn it_works() {
}

#[test]
fn typed_values_are_stored_under_their_keys() {
    let mut session = Session::new(Memory::new());
    assert!(!session.has_changed());
    assert!(session.get::<Counter>().ok().unwrap().is_none());
    assert!(!session.has_changed());

    assert!(session.set(Counter(41)).is_ok());
    assert!(session.has_changed());
    assert_eq!(session.get::<Counter>().ok().unwrap().map(|c| c.0), Some(41));
    assert!(session.get::<Login>().ok().unwrap().is_none());

    assert!(session.set(Login { username: "alice".to_owned() }).is_ok());
    assert_eq!(session.get::<Counter>().ok().unwrap().map(|c| c.0), Some(41));
    assert_eq!(
        session.get::<Login>().ok().unwrap().map(|l| l.username),
        Some("alice".to_owned())
    );

    assert!(session.set(Counter(42)).is_ok());
    assert_eq!(session.get::<Counter>().ok().unwrap().map(|c| c.0), Some(42));

    assert!(session.clear().is_ok());
    assert!(session.get::<Counter>().ok().unwrap().is_none());
    assert!(session.get::<Login>().ok().unwrap().is_none());
    assert!(session.clear().is_ok());
    assert!(session.get::<Counter>().ok().unwrap().is_none());
}

#[test]
fn a_stored_form_that_does_not_decode_reads_as_absent() {
    let mut memory = Memory::new();
    memory.values.insert("counter".to_owned(), "not a number".to_owned());
    memory.values.insert("logged_in_user".to_owned(), String::new());
    let session = Session::new(memory);
    assert!(session.get::<Counter>().ok().unwrap().is_none());
    assert!(session.get::<Login>().ok().unwrap().is_none());
}

#[test]
fn clear_marks_the_session_changed() {
    let mut session = Session::new(Memory::new());
    assert!(session.clear().is_ok());
    assert!(session.has_changed());
}

#[test]
fn a_failing_store_fails_the_typed_calls() {
    let mut memory = Memory::new();
    memory.broken = true;
    let mut session = Session::new(memory);
    assert_eq!(session.get::<Counter>().err().unwrap().description(), "the store is down");
    assert_eq!(session.set(Counter(1)).err().unwrap().description(), "the store is down");
    assert!(session.has_changed());
    assert!(session.clear().is_err());
}

#[test]
fn begin_attaches_an_unchanged_session() {
    let storage = storage();
    let mut request: Request<Signed> = Request::new(None);
    assert!(!request.has_session());
    storage.begin(&mut request);
    assert!(request.has_session());
    assert!(!request.session().has_changed());
    assert!(request.session().get::<Counter>().ok().unwrap().is_none());
    assert_eq!(request.cookies(), &None);
}

#[test]
fn unchanged_session_passes_response_through() {
    let storage = storage();
    let cookie = format!("counter={}", seal(&SECRET.to_vec(), "counter", "5"));

    let mut request: Request<Signed> = Request::new(Some(vec![cookie.clone()]));
    storage.begin(&mut request);
    assert_eq!(request.session().get::<Counter>().ok().unwrap().map(|c| c.0), Some(5));
    let out = storage.finish(&mut request, Ok(Response::new()));
    assert!(!request.has_session());
    assert_eq!(out.ok().unwrap().set_cookie, None);

    let own = vec!["theme=dark".to_owned(), "counter=stale".to_owned()];
    let mut request: Request<Signed> = Request::new(Some(vec![cookie.clone()]));
    storage.begin(&mut request);
    let out = storage.finish(&mut request, Ok(Response { set_cookie: Some(own.clone()) }));
    assert_eq!(out.ok().unwrap().set_cookie, Some(own.clone()));

    let mut request: Request<Signed> = Request::new(Some(vec![cookie]));
    storage.begin(&mut request);
    let failure =
        Failure { cause: "not found".to_owned(), response: Response { set_cookie: Some(own.clone()) } };
    let out = storage.finish(&mut request, Err(failure));
    let failure = out.err().unwrap();
    assert_eq!(failure.cause, "not found");
    assert_eq!(failure.response.set_cookie, Some(own));
}

#[test]
fn a_changed_session_is_written_to_the_response() {
    let storage = storage();
    let mut request: Request<Signed> = Request::new(None);
    storage.begin(&mut request);
    assert!(request.session().set(Counter(1)).is_ok());
    let out = storage.finish(
        &mut request,
        Ok(Response { set_cookie: Some(vec!["theme=dark".to_owned()]) }),
    );
    assert!(!request.has_session());
    let lines = out.ok().unwrap().set_cookie.unwrap();
    assert_eq!(
        lines,
        vec![
            "theme=dark".to_owned(),
            format!("counter={}; HttpOnly; Path=/", seal(&SECRET.to_vec(), "counter", "1")),
        ]
    );
}

#[test]
fn a_changed_session_is_written_to_the_error_response() {
    let storage = storage();
    let mut request: Request<Signed> = Request::new(None);
    storage.begin(&mut request);
    assert!(request.session().set(Login { username: "alice".to_owned() }).is_ok());
    let failure = Failure { cause: "forbidden".to_owned(), response: Response::new() };
    let out = storage.finish(&mut request, Err(failure));
    let failure = out.err().unwrap();
    assert_eq!(failure.cause, "forbidden");
    assert_eq!(
        failure.response.set_cookie,
        Some(vec![format!("logged_in_user={}; HttpOnly; Path=/", seal(&SECRET.to_vec(), "logged_in_user", "alice"))])
    );
}

#[test]
fn a_session_that_cannot_be_written_fails_the_request() {
    let storage = storage();
    let mut request: Request<Signed> = Request::new(None);
    storage.begin(&mut request);
    assert!(request.session().set(Counter(1)).is_ok());
    let out = storage.finish(
        &mut request,
        Ok(Response { set_cookie: Some(vec!["counter=mine".to_owned()]) }),
    );
    let failure = out.err().unwrap();
    assert_eq!(failure.cause, "the response already sets a cookie of the session");
    assert_eq!(failure.response.set_cookie, None);

    let broken = SessionStorage::new(MemoryBackend { broken: true });
    let mut request: Request<Memory> = Request::new(None);
    broken.begin(&mut request);
    assert!(request.session().set(Counter(1)).is_err());
    let out = broken.finish(&mut request, Ok(Response::new()));
    assert_eq!(out.err().unwrap().cause, "the store is down");
}

#[test]
fn around_runs_the_whole_lifecycle() {
    let storage = storage();

    // First request: no cookies, the handler counts from zero.
    let mut request: Request<Signed> = Request::new(None);
    let out = storage.around(&mut request, |req: &mut Request<Signed>| {
        let n = match req.session().get::<Counter>() {
            Ok(Some(c)) => c.0,
            _ => 0,
        };
        assert_eq!(n, 0);
        assert!(req.session().set(Counter(n + 1)).is_ok());
        Ok(Response::new())
    });
    assert!(!request.has_session());
    let lines = out.ok().unwrap().set_cookie.unwrap();
    assert_eq!(lines.len(), 1);
    assert!(lines[0].starts_with("counter="));

    // Second request: the browser presents the cookie.
    let mut request: Request<Signed> = Request::new(Some(vec![pair_of(&lines[0])]));
    let out = storage.around(&mut request, |req: &mut Request<Signed>| {
        let n = req.session().get::<Counter>().ok().unwrap().map(|c| c.0).unwrap_or(0);
        assert_eq!(n, 1);
        assert!(req.session().set(Counter(n + 1)).is_ok());
        Ok(Response::new())
    });
    let lines = out.ok().unwrap().set_cookie.unwrap();
    assert_eq!(lines, vec![format!("counter={}; HttpOnly; Path=/", seal(&SECRET.to_vec(), "counter", "2"))]);

    // Third request: the handler only reads, nothing is written.
    let mut request: Request<Signed> = Request::new(Some(vec![pair_of(&lines[0])]));
    let out = storage.around(&mut request, |req: &mut Request<Signed>| {
        assert_eq!(req.session().get::<Counter>().ok().unwrap().map(|c| c.0), Some(2));
        Ok(Response::new())
    });
    assert_eq!(out.ok().unwrap().set_cookie, None);

    // Logging out: the cookie is taken back.
    let mut request: Request<Signed> = Request::new(Some(vec![pair_of(&lines[0])]));
    let out = storage.around(&mut request, |req: &mut Request<Signed>| {
        assert!(req.session().clear().is_ok());
        Err(Failure { cause: "gone".to_owned(), response: Response::new() })
    });
    let failure = out.err().unwrap();
    assert_eq!(failure.cause, "gone");
    assert_eq!(
        failure.response.set_cookie,
        Some(vec!["counter=; HttpOnly; Path=/; Max-Age=0".to_owned()])
    );
}

#[test]
fn around_passes_on_the_result_of_a_handler_that_detached_the_session() {
    let storage = storage();
    let mut request: Request<Signed> = Request::new(None);
    let out = storage.around(&mut request, |req: &mut Request<Signed>| {
        assert!(req.session().set(Counter(1)).is_ok());
        let taken = req.detach();
        assert!(taken.is_some());
        Ok(Response::new())
    });
    assert!(!request.has_session());
    assert_eq!(out.ok().unwrap().set_cookie, None);
}

#[test]
fn the_slot_holds_one_session_at_a_time() {
    let mut request: Request<Memory> = Request::new(Some(vec!["a=b".to_owned()]));
    assert!(request.detach().is_none());
    assert!(request.attach(Session::new(Memory::new())).is_none());
    assert!(request.session().set(Counter(3)).is_ok());
    let mut other = Memory::new();
    other.values.insert("counter".to_owned(), "9".to_owned());
    let previous = request.attach(Session::new(other)).unwrap();
    assert_eq!(previous.get::<Counter>().ok().unwrap().map(|c| c.0), Some(3));
    assert!(previous.has_changed());
    assert_eq!(request.session_mut().get::<Counter>().ok().unwrap().map(|c| c.0), Some(9));
    assert!(request.detach().is_some());
    assert!(!request.has_session());
    assert_eq!(request.cookies(), &Some(vec!["a=b".to_owned()]));
}

#[test]
fn the_backend_is_reexported() {
    let backend: ReexportedBackend<Plain> = ReexportedBackend::new(SECRET.to_vec());
    let mut request = Request::new(None);
    let session = backend.from_request(&mut request);
    assert_eq!(session.get_raw("anything").ok().unwrap(), None);
}
