//! The storage backends. `SignedCookieBackend` keeps the session in signed
//! cookies on the client; `redis` holds the cookie side of a backend that
//! keeps it in a store on the server.

pub mod redis;
pub mod signedcookie;

pub use self::signedcookie::SignedCookieBackend;
