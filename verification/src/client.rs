//! A client that keeps its cookies, and the law that makes writing only
//! the changes sound: what a session holds when it is written is what the
//! next request of such a client brings.

use std::sync::Arc;
use vstd::prelude::*;
use crate::backends::signedcookie::{
    accepted, expiring, flushed, modified, sealed_cookie, sent,
};
use crate::cookies::{
    default_cookie, is_cookie_name, is_cookie_value, lemma_pair_is_read_back,
    lemma_sealed_is_clean, lemma_sealed_opens, opened, pair_text, sealed, Cookie, CookieView,
};
use crate::jar::{contents, lists};
use crate::text::is_trimmed;

verus! {

/// Whether `c` tells a client to forget the cookie of its name.
pub open spec fn expires_at_once(c: CookieView) -> bool {
    c.max_age matches Some(seconds) && seconds <= 0
}

/// The cookies of a client, by name, after it has received `outs` in this
/// order: a cookie that expires at once is forgotten, any other takes the
/// place of the one of its name.
pub open spec fn kept_after(
    store: Map<Seq<char>, Seq<char>>,
    outs: Seq<CookieView>,
) -> Map<Seq<char>, Seq<char>>
    decreases outs.len(),
{
    if outs.len() == 0 {
        store
    } else {
        let earlier = kept_after(store, outs.drop_last());
        if expires_at_once(outs.last()) {
            earlier.remove(outs.last().name)
        } else {
            earlier.insert(outs.last().name, outs.last().value)
        }
    }
}

/// Whether the cookies of `store` can be presented and read back: each
/// has a cookie name and a text without `;` and without white space at
/// either end.
pub open spec fn is_kept_well(store: Map<Seq<char>, Seq<char>>) -> bool {
    forall|name: Seq<char>| #[trigger]
        store.contains_key(name) ==> is_cookie_name(name) && !store[name].contains(';')
            && is_trimmed(store[name])
}

/// Whether `entries` present the cookies of `store`: each once, as
/// `name=value`, in the order of `names`.
pub open spec fn presents(
    entries: Seq<Seq<char>>,
    names: Seq<Seq<char>>,
    store: Map<Seq<char>, Seq<char>>,
) -> bool {
    &&& lists(names, store.dom())
    &&& entries.len() == names.len()
    &&& forall|i: int|
        0 <= i < names.len() ==> #[trigger] entries[i] == pair_text(names[i], store[names[i]])
}

/// The values that the cookies of `store` authenticate under `secret`.
pub open spec fn authentic(secret: Seq<u8>, store: Map<Seq<char>, Seq<char>>) -> Map<
    Seq<char>,
    Seq<char>,
> {
    Map::new(
        |name: Seq<char>| store.contains_key(name) && opened(secret, name, store[name]) is Some,
        |name: Seq<char>| opened(secret, name, store[name])->0,
    )
}

/// The first `n` of `names` are the first `n - 1` and the one after them,
/// which is none of those where no name occurs twice.
proof fn lemma_one_more(names: Seq<Seq<char>>, n: int)
    requires
        0 < n <= names.len(),
    ensures
        forall|other: Seq<char>|
            names.take(n).contains(other) <==> names.take(n - 1).contains(other) || other
                == names[n - 1],
        names.no_duplicates() ==> !names.take(n - 1).contains(names[n - 1]),
{
    let fewer = names.take(n - 1);
    let more = names.take(n);
    assert forall|other: Seq<char>| more.contains(other) <==> fewer.contains(other) || other
        == names[n - 1] by {
        if fewer.contains(other) {
            let k = choose|k: int| 0 <= k < fewer.len() && fewer[k] == other;
            assert(more[k] == other);
        }
        if other == names[n - 1] {
            assert(more[n - 1] == other);
        }
        if more.contains(other) {
            let k = choose|k: int| 0 <= k < more.len() && more[k] == other;
            if k < n - 1 {
                assert(fewer[k] == other);
            }
        }
    }
    if names.no_duplicates() && fewer.contains(names[n - 1]) {
        let k = choose|k: int| 0 <= k < fewer.len() && fewer[k] == names[n - 1];
        assert(names[k] == names[n - 1]);
    }
}

/// The values that the first `n` of `names` authenticate in `store`.
spec fn authentic_among(
    secret: Seq<u8>,
    store: Map<Seq<char>, Seq<char>>,
    names: Seq<Seq<char>>,
    n: int,
) -> Map<Seq<char>, Seq<char>> {
    Map::new(
        |name: Seq<char>|
            names.take(n).contains(name) && store.contains_key(name) && opened(
                secret,
                name,
                store[name],
            ) is Some,
        |name: Seq<char>| opened(secret, name, store[name])->0,
    )
}

proof fn lemma_presented_prefix(
    secret: Seq<u8>,
    entries: Seq<Seq<char>>,
    names: Seq<Seq<char>>,
    store: Map<Seq<char>, Seq<char>>,
    n: int,
)
    requires
        is_kept_well(store),
        presents(entries, names, store),
        0 <= n <= names.len(),
    ensures
        accepted(secret, entries.take(n)) == authentic_among(secret, store, names, n),
    decreases n,
{
    if n == 0 {
        assert(entries.take(0) =~= Seq::<Seq<char>>::empty());
        assert(names.take(0) =~= Seq::<Seq<char>>::empty());
        assert(accepted(secret, entries.take(0)) =~= authentic_among(secret, store, names, 0));
    } else {
        lemma_presented_prefix(secret, entries, names, store, n - 1);
        let name = names[n - 1];
        let text = store[name];
        assert(names.contains(name));
        assert(store.contains_key(name));
        assert(entries.take(n).drop_last() =~= entries.take(n - 1));
        assert(entries.take(n).last() == entries[n - 1]);
        lemma_pair_is_read_back(name, text, Seq::empty());
        assert(pair_text(name, text) + Seq::<char>::empty() =~= pair_text(name, text));
        lemma_one_more(names, n);
        assert(accepted(secret, entries.take(n)) =~= authentic_among(secret, store, names, n));
    }
}

/// A client that presents its cookies brings what they authenticate: the
/// session of a request that presents the cookies of `store` holds, for
/// each cookie that verifies, the value it verifies as.
pub proof fn lemma_presented_cookies(
    secret: Seq<u8>,
    entries: Seq<Seq<char>>,
    names: Seq<Seq<char>>,
    store: Map<Seq<char>, Seq<char>>,
)
    requires
        is_kept_well(store),
        presents(entries, names, store),
    ensures
        accepted(secret, entries) == authentic(secret, store),
{
    lemma_presented_prefix(secret, entries, names, store, names.len() as int);
    assert(entries.take(names.len() as int) =~= entries);
    assert(names.take(names.len() as int) =~= names);
    assert(authentic_among(secret, store, names, names.len() as int) =~= authentic(
        secret,
        store,
    ));
}

/// What a client keeps after the first `n` cookies of a flush without a
/// modifier.
spec fn kept_among(
    secret: Seq<u8>,
    store: Map<Seq<char>, Seq<char>>,
    changes: Map<Seq<char>, Option<Seq<char>>>,
    names: Seq<Seq<char>>,
    n: int,
) -> Map<Seq<char>, Seq<char>> {
    Map::new(
        |name: Seq<char>|
            if names.take(n).contains(name) {
                changes[name] is Some
            } else {
                store.contains_key(name)
            },
        |name: Seq<char>|
            if names.take(n).contains(name) {
                sealed(secret, name, changes[name]->0)
            } else {
                store[name]
            },
    )
}

proof fn lemma_kept_prefix<M: Fn(Cookie) -> Cookie>(
    secret: Seq<u8>,
    store: Map<Seq<char>, Seq<char>>,
    changes: Map<Seq<char>, Option<Seq<char>>>,
    names: Seq<Seq<char>>,
    outs: Seq<CookieView>,
    n: int,
)
    requires
        flushed(secret, None::<Arc<M>>, changes, names, outs),
        0 <= n <= names.len(),
    ensures
        kept_after(store, outs.take(n)) == kept_among(secret, store, changes, names, n),
    decreases n,
{
    if n == 0 {
        assert(outs.take(0) =~= Seq::<CookieView>::empty());
        assert(names.take(0) =~= Seq::<Seq<char>>::empty());
        assert(kept_after(store, outs.take(0)) =~= kept_among(secret, store, changes, names, 0));
    } else {
        lemma_kept_prefix::<M>(secret, store, changes, names, outs, n - 1);
        let name = names[n - 1];
        let out = outs[n - 1];
        assert(outs.take(n).drop_last() =~= outs.take(n - 1));
        assert(outs.take(n).last() == out);
        assert(sent(secret, None::<Arc<M>>, names[n - 1], changes[names[n - 1]], out));
        match changes[name] {
            Some(value) => {
                let m = choose|m: CookieView| #[trigger]
                    modified(None::<Arc<M>>, default_cookie(name, value), m) && out
                        == sealed_cookie(secret, m);
                assert(out == sealed_cookie(secret, default_cookie(name, value)));
            },
            None => {
                let m = choose|m: CookieView| #[trigger]
                    modified(None::<Arc<M>>, default_cookie(name, Seq::empty()), m) && out
                        == expiring(m);
                assert(out == expiring(default_cookie(name, Seq::empty())));
            },
        }
        lemma_one_more(names, n);
        assert(kept_after(store, outs.take(n)) =~= kept_among(secret, store, changes, names, n));
    }
}

/// A session survives the round through the client. Let a client keep the
/// cookies `store`, and let a session without a modifier, made from what
/// those cookies authenticate, be written with the changes `changes`. Once
/// the client has received the cookies that were written, any request that
/// presents what it then keeps brings exactly the values that the session
/// held when it was written: what was set, and what the earlier request
/// brought and was neither set anew nor removed.
///
/// This is so where every changed key is a cookie name and every value
/// that was set holds no `;` and does not end with white space.
pub proof fn lemma_session_survives<M: Fn(Cookie) -> Cookie>(
    secret: Seq<u8>,
    store: Map<Seq<char>, Seq<char>>,
    changes: Map<Seq<char>, Option<Seq<char>>>,
    names: Seq<Seq<char>>,
    outs: Seq<CookieView>,
    entries: Seq<Seq<char>>,
    order: Seq<Seq<char>>,
)
    requires
        is_kept_well(store),
        flushed(secret, None::<Arc<M>>, changes, names, outs),
        forall|name: Seq<char>| #[trigger]
            changes.contains_key(name) ==> is_cookie_name(name) && (changes[name] matches Some(
                value,
            ) ==> is_cookie_value(value)),
        presents(entries, order, kept_after(store, outs)),
    ensures
        is_kept_well(kept_after(store, outs)),
        accepted(secret, entries) == contents(authentic(secret, store), changes),
{
    let n = names.len() as int;
    lemma_kept_prefix::<M>(secret, store, changes, names, outs, n);
    assert(outs.take(n) =~= outs);
    assert(names.take(n) =~= names);
    let kept = kept_after(store, outs);
    assert forall|name: Seq<char>| #[trigger] kept.contains_key(name) implies is_cookie_name(name)
        && !kept[name].contains(';') && is_trimmed(kept[name]) by {
        if names.contains(name) {
            assert(changes.contains_key(name));
            lemma_sealed_is_clean(secret, name, changes[name]->0);
        } else {
            assert(store.contains_key(name));
        }
    }
    lemma_presented_cookies(secret, entries, order, kept);
    let brought = authentic(secret, kept);
    let held = contents(authentic(secret, store), changes);
    assert forall|name: Seq<char>|
        #![trigger brought.dom().contains(name)]
        #![trigger held.dom().contains(name)]
        brought.dom().contains(name) == held.dom().contains(name) && (brought.dom().contains(name)
            ==> brought[name] == held[name]) by {
        if changes.contains_key(name) {
            assert(names.contains(name));
            if changes[name] is Some {
                lemma_sealed_opens(secret, name, changes[name]->0);
            }
        } else {
            assert(!names.contains(name));
        }
    }
    assert(authentic(secret, kept) =~= contents(authentic(secret, store), changes));
}

} // verus!
