//! `cookie::CookieJar` as the store of a session: the cookies it was seeded
//! with and the changes made since.
//!
//! The jar is opaque to the verifier. Its content is named by two maps, and
//! each method that the library calls is wrapped with a contract over them,
//! taken from the crate's source and not proved.

use vstd::prelude::*;
use crate::cookies::opt_view;
use crate::text::texts_of;

verus! {

#[verifier::external_type_specification]
#[verifier::external_body]
pub struct ExCookieJar(cookie::CookieJar);

/// The cookies that `jar` was seeded with through `add_original`, by name.
pub uninterp spec fn jar_originals(jar: cookie::CookieJar) -> Map<Seq<char>, Seq<char>>;

/// The changes that `jar` has recorded, by name: the value of a cookie that
/// was added, `None` for the removal of an original cookie.
pub uninterp spec fn jar_changes(jar: cookie::CookieJar) -> Map<Seq<char>, Option<Seq<char>>>;

/// The value that a jar with these originals and changes holds under
/// `name`: a change hides the seeded cookie of the same name.
pub open spec fn lookup(
    originals: Map<Seq<char>, Seq<char>>,
    changes: Map<Seq<char>, Option<Seq<char>>>,
    name: Seq<char>,
) -> Option<Seq<char>> {
    if changes.contains_key(name) {
        changes[name]
    } else if originals.contains_key(name) {
        Some(originals[name])
    } else {
        None
    }
}

/// The cookies that a jar with these originals and changes holds.
pub open spec fn contents(
    originals: Map<Seq<char>, Seq<char>>,
    changes: Map<Seq<char>, Option<Seq<char>>>,
) -> Map<Seq<char>, Seq<char>> {
    Map::new(
        |name: Seq<char>| lookup(originals, changes, name) is Some,
        |name: Seq<char>| lookup(originals, changes, name)->0,
    )
}

/// The changes after `name` was removed: an original cookie leaves a
/// removal behind, any other cookie leaves no trace.
pub open spec fn without(
    originals: Map<Seq<char>, Seq<char>>,
    changes: Map<Seq<char>, Option<Seq<char>>>,
    name: Seq<char>,
) -> Map<Seq<char>, Option<Seq<char>>> {
    if originals.contains_key(name) {
        changes.insert(name, None)
    } else {
        changes.remove(name)
    }
}

/// Whether `names` lists exactly the elements of `keys`, each once.
pub open spec fn lists(names: Seq<Seq<char>>, keys: Set<Seq<char>>) -> bool {
    &&& names.no_duplicates()
    &&& forall|name: Seq<char>| names.contains(name) <==> keys.contains(name)
}

/// `cookie::CookieJar::new`: a jar without cookies and without changes.
#[verifier::external_body]
pub(crate) fn jar_new() -> (jar: cookie::CookieJar)
    ensures
        jar_originals(jar) == (Map::<Seq<char>, Seq<char>>::empty()),
        jar_changes(jar) == (Map::<Seq<char>, Option<Seq<char>>>::empty()),
{
    cookie::CookieJar::new()
}

/// `cookie::CookieJar::add_original` with a cookie of this name and value:
/// it takes the place of an original of the same name and records no change.
#[verifier::external_body]
pub(crate) fn jar_add_original(jar: &mut cookie::CookieJar, name: &str, value: &str)
    ensures
        jar_originals(*final(jar)) == jar_originals(*old(jar)).insert(name@, value@),
        jar_changes(*final(jar)) == jar_changes(*old(jar)),
{
    jar.add_original(cookie::Cookie::new(name.to_owned(), value.to_owned()));
}

/// `cookie::CookieJar::add` with a cookie of this name and value: it is
/// recorded as a change and takes the place of a change of the same name.
#[verifier::external_body]
pub(crate) fn jar_add(jar: &mut cookie::CookieJar, name: &str, value: &str)
    ensures
        jar_originals(*final(jar)) == jar_originals(*old(jar)),
        jar_changes(*final(jar)) == jar_changes(*old(jar)).insert(name@, Some(value@)),
{
    jar.add(cookie::Cookie::new(name.to_owned(), value.to_owned()));
}

/// `cookie::CookieJar::remove` with a cookie of this name: where the jar
/// has an original of that name a removal is recorded, else the change of
/// that name is forgotten.
#[verifier::external_body]
pub(crate) fn jar_remove(jar: &mut cookie::CookieJar, name: &str)
    ensures
        jar_originals(*final(jar)) == jar_originals(*old(jar)),
        jar_changes(*final(jar)) == without(jar_originals(*old(jar)), jar_changes(*old(jar)), name@),
{
    jar.remove(cookie::Cookie::named(name.to_owned()));
}

/// `cookie::CookieJar::get`, handing out the value: that of the change of
/// this name unless it is a removal, else that of the seeded cookie.
#[verifier::external_body]
pub(crate) fn jar_get(jar: &cookie::CookieJar, name: &str) -> (value: Option<String>)
    ensures
        opt_view(value) == lookup(jar_originals(*jar), jar_changes(*jar), name@),
{
    jar.get(name).map(|c| c.value().to_owned())
}

/// `cookie::CookieJar::delta`, handing out the names: one for each recorded
/// change, in the order in which the jar's hash set is walked.
#[verifier::external_body]
pub(crate) fn jar_changed_names(jar: &cookie::CookieJar) -> (names: Vec<String>)
    ensures
        lists(texts_of(names@), jar_changes(*jar).dom()),
{
    jar.delta().map(|c| c.name().to_owned()).collect()
}

/// `cookie::CookieJar::iter`, handing out the names: one for each cookie
/// that the jar holds, in the order in which its hash sets are walked.
#[verifier::external_body]
pub(crate) fn jar_names(jar: &cookie::CookieJar) -> (names: Vec<String>)
    ensures
        lists(texts_of(names@), contents(jar_originals(*jar), jar_changes(*jar)).dom()),
{
    jar.iter().map(|c| c.name().to_owned()).collect()
}

} // verus!
