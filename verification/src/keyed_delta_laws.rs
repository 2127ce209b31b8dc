//! What a change of users does to a table of users under keys of any kind.

use vstd::prelude::*;

use crate::delta::{
    keyed_add, keyed_add_all, keyed_delete, keyed_delete_all, keyed_delta, keyed_outcome,
    keyed_update, keyed_update_all, keys_by_uuid, list_add, list_add_all, list_delete, list_delete_all,
    list_delta, list_update, list_update_all, KeyedProgress,
};
use crate::delta_laws::{law_change_of_one_uuid, lemma_last_named, listed, names, user_after};
use crate::table::{
    cut, distinct, find, get, holds, lemma_cut, lemma_find, lemma_find_at, lemma_put,
    put,
};
use crate::user::{unchanged, CoreUser, CoreUserDelta, CoreUserDeltaResult, Progress};

verus! {

/// The users of a table under their uuids.
pub open spec fn uuid_roster<K>(s: Seq<(K, CoreUser)>) -> Seq<(Seq<char>, CoreUser)> {
    s.map_values(|e: (K, CoreUser)| (e.1.uuid@, e.1))
}

/// Whether every user of a table stands under the own key, no key twice, and no uuid twice.
pub open spec fn keyed_by<K>(
    s: Seq<(K, CoreUser)>,
    rule: spec_fn(CoreUser) -> Option<K>,
) -> bool {
    &&& distinct(s)
    &&& distinct(uuid_roster(s))
    &&& forall|i: int| 0 <= i < s.len() ==> rule((#[trigger] s[i]).1) == Some(s[i].0)
}

/// Whether a change of a table deals with the user: the table has it, or the change adds it or
/// updates to it, which it does with no blank user.
pub open spec fn concerns<K>(
    users: Seq<(K, CoreUser)>,
    delta: CoreUserDelta,
    user: CoreUser,
) -> bool {
    ||| exists|i: int| 0 <= i < users.len() && (#[trigger] users[i]).1 == user
    ||| !user.blank() && delta.added@.contains(user)
    ||| !user.blank() && delta.updated@.contains(user)
}

/// Whether every user that a change deals with has a key, and users of different uuids have
/// different keys.
pub open spec fn separates<K>(
    users: Seq<(K, CoreUser)>,
    delta: CoreUserDelta,
    rule: spec_fn(CoreUser) -> Option<K>,
) -> bool {
    &&& forall|u: CoreUser| #[trigger] concerns(users, delta, u) ==> rule(u) is Some
    &&& forall|u: CoreUser, v: CoreUser|
        #[trigger] concerns(users, delta, u) && #[trigger] concerns(users, delta, v) && rule(u)
            == rule(v) ==> u.uuid@ == v.uuid@
}

/// A table and a list that hold the same users, with the same counts, and a record of the key of
/// every uuid.
spec fn alike<K>(
    p: KeyedProgress<K>,
    q: Progress<Seq<char>>,
    users: Seq<(K, CoreUser)>,
    delta: CoreUserDelta,
    rule: spec_fn(CoreUser) -> Option<K>,
) -> bool {
    &&& distinct(p.base.users)
    &&& distinct(p.keys)
    &&& distinct(q.users)
    &&& p.base.users.len() == q.users.len()
    &&& forall|x: Seq<char>|
        #[trigger] get(q.users, x) matches Some(u) ==> {
            &&& u.uuid@ == x
            &&& concerns(users, delta, u)
            &&& get(p.base.users, rule(u)->0) == Some(u)
        }
    &&& forall|k: K|
        #[trigger] get(p.base.users, k) matches Some(u) ==> {
            &&& rule(u) == Some(k)
            &&& get(q.users, u.uuid@) == Some(u)
        }
    &&& forall|x: Seq<char>|
        #[trigger] get(p.keys, x) == (match get(q.users, x) {
            Some(u) => rule(u),
            None => None,
        })
    &&& p.base.added == q.added
    &&& p.base.updated == q.updated
    &&& p.base.deleted == q.deleted
    &&& p.base.missing_updated == q.missing_updated
    &&& p.base.missing_deleted == q.missing_deleted
}

/// One user put into a table and into a list.
proof fn lemma_alike_put<K>(
    p: KeyedProgress<K>,
    q: Progress<Seq<char>>,
    users: Seq<(K, CoreUser)>,
    delta: CoreUserDelta,
    rule: spec_fn(CoreUser) -> Option<K>,
    user: CoreUser,
)
    requires
        alike(p, q, users, delta, rule),
        separates(users, delta, rule),
        concerns(users, delta, user),
        !user.blank(),
    ensures
        alike(keyed_add(p, user, rule(user)), list_add(q, user), users, delta, rule),
        alike(keyed_update(p, user, rule(user)), list_update(q, user), users, delta, rule),
{
    let x = user.uuid@;
    let k = rule(user)->0;
    let s = p.base.users;
    let t = q.users;
    assert(get(p.keys, x) == (match get(t, x) {
        Some(u) => rule(u),
        None => None,
    }));
    let old_key = get(p.keys, x);
    let rest = match old_key {
        Some(old) => cut(s, old),
        None => s,
    };
    if let Some(v) = get(t, x) {
        assert(concerns(users, delta, v));
        assert(get(s, rule(v)->0) == Some(v));
        lemma_find(s, rule(v)->0);
        lemma_cut(s, rule(v)->0);
    }
    lemma_put(rest, k, user);
    lemma_put(t, x, user);
    lemma_put(p.keys, x, k);
    lemma_find(t, x);
    lemma_find(rest, k);
    assert(!holds(rest, k)) by {
        if holds(rest, k) {
            let w = get(rest, k)->0;
            assert(get(rest, k) == Some(w));
            assert(get(s, k) == Some(w));
            assert(get(t, w.uuid@) == Some(w));
            assert(concerns(users, delta, w));
            assert(w.uuid@ == x);
        }
    }
    let out = put(rest, k, user);
    let list = put(t, x, user);
    assert forall|y: Seq<char>| #[trigger] get(list, y) is Some implies ({
        let u = get(list, y)->0;
        &&& u.uuid@ == y
        &&& concerns(users, delta, u)
        &&& get(out, rule(u)->0) == Some(u)
    }) by {
        if y != x {
            let u = get(list, y)->0;
            assert(get(t, y) == Some(u));
            assert(u.uuid@ == y);
            assert(rule(u) is Some && rule(user) is Some);
            assert(rule(u)->0 != k);
            if let Some(v) = get(t, x) {
                assert(v.uuid@ == x);
                assert(rule(v) is Some);
                assert(rule(u)->0 != rule(v)->0);
            }
            assert(get(out, rule(u)->0) == get(s, rule(u)->0));
        }
    }
    assert forall|j: K| #[trigger] get(out, j) is Some implies ({
        let u = get(out, j)->0;
        &&& rule(u) == Some(j)
        &&& get(list, u.uuid@) == Some(u)
    }) by {
        if j != k {
            let u = get(out, j)->0;
            assert(get(rest, j) == Some(u));
            assert(get(s, j) == Some(u));
            assert(get(t, u.uuid@) == Some(u));
            assert(u.uuid@ != x);
        }
    }
    assert forall|y: Seq<char>| #[trigger] get(put(p.keys, x, k), y) == (match get(list, y) {
        Some(u) => rule(u),
        None => None,
    }) by {
        if y != x {
            assert(get(p.keys, y) == (match get(t, y) {
                Some(u) => rule(u),
                None => None,
            }));
        }
    }
}

/// One uuid deleted from a table and from a list.
proof fn lemma_alike_delete<K>(
    p: KeyedProgress<K>,
    q: Progress<Seq<char>>,
    users: Seq<(K, CoreUser)>,
    delta: CoreUserDelta,
    rule: spec_fn(CoreUser) -> Option<K>,
    x: Seq<char>,
)
    requires
        alike(p, q, users, delta, rule),
        separates(users, delta, rule),
    ensures
        alike(keyed_delete(p, x), list_delete(q, x), users, delta, rule),
{
    let s = p.base.users;
    let t = q.users;
    assert(get(p.keys, x) == (match get(t, x) {
        Some(u) => rule(u),
        None => None,
    }));
    lemma_find(t, x);
    lemma_cut(t, x);
    lemma_cut(p.keys, x);
    if let Some(v) = get(t, x) {
        let k = rule(v)->0;
        assert(concerns(users, delta, v));
        assert(get(s, k) == Some(v));
        lemma_find(s, k);
        lemma_cut(s, k);
        let out = cut(s, k);
        let list = cut(t, x);
        assert forall|y: Seq<char>| #[trigger] get(list, y) is Some implies ({
            let u = get(list, y)->0;
            &&& u.uuid@ == y
            &&& concerns(users, delta, u)
            &&& get(out, rule(u)->0) == Some(u)
        }) by {
            assert(y != x);
            let u = get(list, y)->0;
            assert(get(t, y) == Some(u));
            assert(rule(u) is Some && rule(v) is Some);
            assert(rule(u)->0 != k);
        }
        assert forall|j: K| #[trigger] get(out, j) is Some implies ({
            let u = get(out, j)->0;
            &&& rule(u) == Some(j)
            &&& get(list, u.uuid@) == Some(u)
        }) by {
            assert(j != k);
            let u = get(out, j)->0;
            assert(get(s, j) == Some(u));
            assert(get(t, u.uuid@) == Some(u));
            assert(u.uuid@ != x);
        }
        assert forall|y: Seq<char>| #[trigger] get(cut(p.keys, x), y) == (match get(list, y) {
            Some(u) => rule(u),
            None => None,
        }) by {
            if y != x {
                assert(get(p.keys, y) == (match get(t, y) {
                    Some(u) => rule(u),
                    None => None,
                }));
            }
        }
    }
}

/// Adding to a table does what it does to a list.
proof fn lemma_alike_add_all<K>(
    p: KeyedProgress<K>,
    q: Progress<Seq<char>>,
    users: Seq<(K, CoreUser)>,
    delta: CoreUserDelta,
    rule: spec_fn(CoreUser) -> Option<K>,
    n: int,
)
    requires
        alike(p, q, users, delta, rule),
        separates(users, delta, rule),
        0 <= n <= delta.added@.len(),
    ensures
        alike(
            keyed_add_all(p, delta.added@.subrange(0, n), rule),
            list_add_all(q, delta.added@.subrange(0, n)),
            users,
            delta,
            rule,
        ),
    decreases n,
{
    if n > 0 {
        let some = delta.added@.subrange(0, n);
        let fewer = delta.added@.subrange(0, n - 1);
        let last = delta.added@[n - 1];
        lemma_alike_add_all(p, q, users, delta, rule, n - 1);
        assert(some.subrange(0, n - 1) =~= fewer);
        if !last.blank() {
            assert(delta.added@.contains(last));
            assert(concerns(users, delta, last));
            lemma_alike_put(
                keyed_add_all(p, fewer, rule),
                list_add_all(q, fewer),
                users,
                delta,
                rule,
                last,
            );
        }
    }
}

/// Updating a table does what it does to a list.
proof fn lemma_alike_update_all<K>(
    p: KeyedProgress<K>,
    q: Progress<Seq<char>>,
    users: Seq<(K, CoreUser)>,
    delta: CoreUserDelta,
    rule: spec_fn(CoreUser) -> Option<K>,
    n: int,
)
    requires
        alike(p, q, users, delta, rule),
        separates(users, delta, rule),
        0 <= n <= delta.updated@.len(),
    ensures
        alike(
            keyed_update_all(p, delta.updated@.subrange(0, n), rule),
            list_update_all(q, delta.updated@.subrange(0, n)),
            users,
            delta,
            rule,
        ),
    decreases n,
{
    if n > 0 {
        let some = delta.updated@.subrange(0, n);
        let fewer = delta.updated@.subrange(0, n - 1);
        let last = delta.updated@[n - 1];
        lemma_alike_update_all(p, q, users, delta, rule, n - 1);
        assert(some.subrange(0, n - 1) =~= fewer);
        if !last.blank() {
            assert(delta.updated@.contains(last));
            assert(concerns(users, delta, last));
            lemma_alike_put(
                keyed_update_all(p, fewer, rule),
                list_update_all(q, fewer),
                users,
                delta,
                rule,
                last,
            );
        }
    }
}

/// Deleting from a table does what it does to a list.
proof fn lemma_alike_delete_all<K>(
    p: KeyedProgress<K>,
    q: Progress<Seq<char>>,
    users: Seq<(K, CoreUser)>,
    delta: CoreUserDelta,
    rule: spec_fn(CoreUser) -> Option<K>,
    uuids: Seq<String>,
)
    requires
        alike(p, q, users, delta, rule),
        separates(users, delta, rule),
    ensures
        alike(keyed_delete_all(p, uuids), list_delete_all(q, uuids), users, delta, rule),
    decreases uuids.len(),
{
    if uuids.len() > 0 {
        let init = uuids.subrange(0, uuids.len() - 1);
        lemma_alike_delete_all(p, q, users, delta, rule, init);
        lemma_alike_delete(
            keyed_delete_all(p, init),
            list_delete_all(q, init),
            users,
            delta,
            rule,
            uuids[uuids.len() - 1]@,
        );
    }
}

/// The entry of a table at a position is the one of its key, and its user the one of the uuid.
proof fn lemma_entry<K>(s: Seq<(K, CoreUser)>, i: int)
    requires
        distinct(s),
        distinct(uuid_roster(s)),
        0 <= i < s.len(),
    ensures
        get(s, s[i].0) == Some(s[i].1),
        get(uuid_roster(s), s[i].1.uuid@) == Some(s[i].1),
{
    let t = uuid_roster(s);
    assert(t[i] == (s[i].1.uuid@, s[i].1));
    assert forall|j: int| 0 <= j < i implies #[trigger] s[j].0 != s[i].0 by {}
    assert forall|j: int| 0 <= j < i implies #[trigger] t[j].0 != t[i].0 by {}
    lemma_find_at(s, s[i].0, i);
    lemma_find_at(t, t[i].0, i);
}

/// The record of the keys of a table has of each uuid the key of its user.
proof fn lemma_recorded_keys<K>(s: Seq<(K, CoreUser)>, x: Seq<char>)
    requires
        distinct(uuid_roster(s)),
    ensures
        distinct(keys_by_uuid(s)),
        forall|i: int|
            0 <= i < s.len() && (#[trigger] s[i]).1.uuid@ == x ==> get(keys_by_uuid(s), x) == Some(
                s[i].0,
            ),
        (forall|i: int| 0 <= i < s.len() ==> (#[trigger] s[i]).1.uuid@ != x) ==> get(
            keys_by_uuid(s),
            x,
        ) is None,
    decreases s.len(),
{
    if s.len() > 0 {
        let init = s.subrange(0, s.len() - 1);
        let last = s[s.len() - 1];
        let t = uuid_roster(s);
        let u = uuid_roster(init);
        assert forall|i: int, j: int| 0 <= i < j < u.len() implies #[trigger] u[i].0
            != #[trigger] u[j].0 by {
            assert(u[i] == t[i] && u[j] == t[j]);
        }
        lemma_recorded_keys(init, x);
        lemma_put(keys_by_uuid(init), last.1.uuid@, last.0);
        assert forall|i: int| 0 <= i < s.len() && (#[trigger] s[i]).1.uuid@ == x implies get(
            keys_by_uuid(s),
            x,
        ) == Some(s[i].0) by {
            assert(t[i].0 == s[i].1.uuid@ && t[s.len() - 1].0 == last.1.uuid@);
            if i < s.len() - 1 {
                assert(init[i] == s[i]);
                assert(t[i].0 != t[s.len() - 1].0);
            }
        }
        if forall|i: int| 0 <= i < s.len() ==> (#[trigger] s[i]).1.uuid@ != x {
            assert(s[s.len() - 1].1.uuid@ != x);
            assert forall|i: int| 0 <= i < init.len() implies (#[trigger] init[i]).1.uuid@ != x by {
                assert(init[i] == s[i]);
            }
        }
    }
}

/// A table and the list of its users, before a change.
proof fn lemma_alike_before<K>(
    users: Seq<(K, CoreUser)>,
    delta: CoreUserDelta,
    rule: spec_fn(CoreUser) -> Option<K>,
)
    requires
        keyed_by(users, rule),
    ensures
        alike(
            KeyedProgress { base: unchanged(users), keys: keys_by_uuid(users) },
            unchanged(uuid_roster(users)),
            users,
            delta,
            rule,
        ),
{
    let t = uuid_roster(users);
    let keys = keys_by_uuid(users);
    lemma_recorded_keys(users, Seq::empty());
    assert forall|x: Seq<char>| #[trigger] get(t, x) is Some implies ({
        let u = get(t, x)->0;
        &&& u.uuid@ == x
        &&& concerns(users, delta, u)
        &&& get(users, rule(u)->0) == Some(u)
    }) by {
        lemma_find(t, x);
        let i = find(t, x);
        assert(t[i] == (users[i].1.uuid@, users[i].1));
        lemma_entry(users, i);
    }
    assert forall|k: K| #[trigger] get(users, k) is Some implies ({
        let u = get(users, k)->0;
        &&& rule(u) == Some(k)
        &&& get(t, u.uuid@) == Some(u)
    }) by {
        lemma_find(users, k);
        let i = find(users, k);
        assert(rule(users[i].1) == Some(users[i].0));
        lemma_entry(users, i);
    }
    assert forall|x: Seq<char>| #[trigger] get(keys, x) == (match get(t, x) {
        Some(u) => rule(u),
        None => None,
    }) by {
        lemma_recorded_keys(users, x);
        lemma_find(t, x);
        if get(t, x) is Some {
            let i = find(t, x);
            assert(t[i] == (users[i].1.uuid@, users[i].1));
            assert(users[i].1.uuid@ == x);
            assert(rule(users[i].1) == Some(users[i].0));
        } else {
            assert forall|i: int| 0 <= i < users.len() implies (#[trigger] users[i]).1.uuid@ != x by {
                assert(t[i].0 == users[i].1.uuid@);
            }
        }
    }
}

/// A table and a list that are alike: the table is keyed, and has of each uuid the user that the
/// list has.
proof fn lemma_alike_after<K>(
    p: KeyedProgress<K>,
    q: Progress<Seq<char>>,
    users: Seq<(K, CoreUser)>,
    delta: CoreUserDelta,
    rule: spec_fn(CoreUser) -> Option<K>,
)
    requires
        alike(p, q, users, delta, rule),
        separates(users, delta, rule),
    ensures
        keyed_by(p.base.users, rule),
        separates(p.base.users, delta, rule),
        forall|x: Seq<char>| #[trigger] get(uuid_roster(p.base.users), x) == get(q.users, x),
{
    let s = p.base.users;
    let t = uuid_roster(s);
    assert forall|i: int| 0 <= i < s.len() implies get(s, (#[trigger] s[i]).0) == Some(s[i].1) by {
        assert forall|j: int| 0 <= j < i implies #[trigger] s[j].0 != s[i].0 by {}
        lemma_find_at(s, s[i].0, i);
    }
    assert forall|i: int| 0 <= i < s.len() implies rule((#[trigger] s[i]).1) == Some(s[i].0) by {
        assert(get(s, s[i].0) == Some(s[i].1));
    }
    assert forall|i: int, j: int| 0 <= i < j < t.len() implies #[trigger] t[i].0
        != #[trigger] t[j].0 by {
        assert(get(s, s[i].0) == Some(s[i].1));
        assert(get(s, s[j].0) == Some(s[j].1));
        assert(t[i].0 == s[i].1.uuid@ && t[j].0 == s[j].1.uuid@);
        if t[i].0 == t[j].0 {
            assert(get(q.users, s[i].1.uuid@) == Some(s[i].1));
            assert(get(q.users, s[j].1.uuid@) == Some(s[j].1));
            assert(s[i].0 == s[j].0);
        }
    }
    assert forall|u: CoreUser| #[trigger] concerns(s, delta, u) implies concerns(
        users,
        delta,
        u,
    ) by {
        if exists|i: int| 0 <= i < s.len() && (#[trigger] s[i]).1 == u {
            let i = choose|i: int| 0 <= i < s.len() && (#[trigger] s[i]).1 == u;
            assert(get(s, s[i].0) == Some(u));
            assert(get(q.users, u.uuid@) == Some(u));
        }
    }
    assert forall|x: Seq<char>| #[trigger] get(t, x) == get(q.users, x) by {
        lemma_find(t, x);
        if get(t, x) is Some {
            let i = find(t, x);
            assert(t[i] == (s[i].1.uuid@, s[i].1));
            assert(get(s, s[i].0) == Some(s[i].1));
        } else if let Some(u) = get(q.users, x) {
            let k = rule(u)->0;
            assert(get(s, k) == Some(u));
            lemma_find(s, k);
            let i = find(s, k);
            assert(s[i].1 == u && u.uuid@ == x);
            assert(t[i].0 == x);
        }
    }
}

/// A change keeps a table whose users stand under keys of their own, and has of each uuid the
/// user that the change leaves it: the one that updated it last, or else the one that was added
/// last, or else the one it had. A uuid is there afterwards if it is not deleted, and was there
/// or is added. The counts are those of the same change to a list.
pub proof fn law_keyed_table_follows_change<K>(
    users: Seq<(K, CoreUser)>,
    delta: CoreUserDelta,
    rule: spec_fn(CoreUser) -> Option<K>,
)
    requires
        keyed_by(users, rule),
        separates(users, delta, rule),
    ensures
        keyed_by(keyed_delta(users, delta, rule).base.users, rule),
        separates(keyed_delta(users, delta, rule).base.users, delta, rule),
        forall|x: Seq<char>|
            #[trigger] get(uuid_roster(keyed_delta(users, delta, rule).base.users), x)
                == user_after(get(uuid_roster(users), x), delta, x),
        forall|x: Seq<char>|
            #[trigger] holds(uuid_roster(keyed_delta(users, delta, rule).base.users), x) <==> (
            !listed(delta.deleted@, x) && (holds(uuid_roster(users), x) || names(
                delta.added@,
                x,
            ))),
        ({
            let p = keyed_delta(users, delta, rule).base;
            let q = list_delta(uuid_roster(users), delta);
            &&& p.users.len() == q.users.len()
            &&& p.added == q.added
            &&& p.updated == q.updated
            &&& p.deleted == q.deleted
            &&& p.missing_updated == q.missing_updated
            &&& p.missing_deleted == q.missing_deleted
        }),
{
    let p = KeyedProgress { base: unchanged(users), keys: keys_by_uuid(users) };
    let q = unchanged(uuid_roster(users));
    lemma_alike_before(users, delta, rule);
    let (m, n) = (delta.added@.len() as int, delta.updated@.len() as int);
    assert(delta.added@.subrange(0, m) =~= delta.added@);
    assert(delta.updated@.subrange(0, n) =~= delta.updated@);
    lemma_alike_add_all(p, q, users, delta, rule, m);
    let p1 = keyed_add_all(p, delta.added@, rule);
    let q1 = list_add_all(q, delta.added@);
    lemma_alike_update_all(p1, q1, users, delta, rule, n);
    let p2 = keyed_update_all(p1, delta.updated@, rule);
    let q2 = list_update_all(q1, delta.updated@);
    lemma_alike_delete_all(p2, q2, users, delta, rule, delta.deleted@);
    let after = keyed_delta(users, delta, rule);
    lemma_alike_after(after, list_delta(uuid_roster(users), delta), users, delta, rule);
    assert forall|x: Seq<char>|
        #[trigger] get(uuid_roster(after.base.users), x) == user_after(
            get(uuid_roster(users), x),
            delta,
            x,
        ) by {
        law_change_of_one_uuid(uuid_roster(users), delta, x);
    }
    assert forall|x: Seq<char>|
        #[trigger] holds(uuid_roster(after.base.users), x) <==> (!listed(delta.deleted@, x) && (
        holds(uuid_roster(users), x) || names(delta.added@, x))) by {
        assert(get(uuid_roster(after.base.users), x) == user_after(
            get(uuid_roster(users), x),
            delta,
            x,
        ));
        lemma_last_named(delta.added@, x);
    }
}

/// The same change applied twice to a table leaves of each uuid what it leaves applied once.
pub proof fn law_same_change_twice_to_table<K>(
    users: Seq<(K, CoreUser)>,
    delta: CoreUserDelta,
    rule: spec_fn(CoreUser) -> Option<K>,
    uuid: Seq<char>,
)
    requires
        keyed_by(users, rule),
        separates(users, delta, rule),
    ensures
        ({
            let once = keyed_delta(users, delta, rule).base.users;
            let twice = keyed_delta(once, delta, rule).base.users;
            get(uuid_roster(twice), uuid) == get(uuid_roster(once), uuid)
        }),
{
    let once = keyed_delta(users, delta, rule).base.users;
    let twice = keyed_delta(once, delta, rule).base.users;
    law_keyed_table_follows_change(users, delta, rule);
    law_keyed_table_follows_change(once, delta, rule);
    assert(get(uuid_roster(once), uuid) == user_after(get(uuid_roster(users), uuid), delta, uuid));
    assert(get(uuid_roster(twice), uuid) == user_after(get(uuid_roster(once), uuid), delta, uuid));
}

/// A change leaves one outcome: two tables that held the same users, shared or not, hold the same
/// users after it, and the same is reported of both.
pub proof fn law_change_has_one_outcome<K>(
    before: Seq<(K, CoreUser)>,
    after: Seq<(K, CoreUser)>,
    other: Seq<(K, CoreUser)>,
    delta: CoreUserDelta,
    rule: spec_fn(CoreUser) -> Option<K>,
    r: CoreUserDeltaResult,
    s: CoreUserDeltaResult,
)
    requires
        keyed_outcome(before, after, delta, rule, r),
        keyed_outcome(before, other, delta, rule, s),
    ensures
        after == other,
        r == s,
{
}

} // verus!
