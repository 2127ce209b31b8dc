//! What holds of user changes as a whole.

use vstd::prelude::*;

use crate::delta::{
    active_users, keyed_add, keyed_add_all, keyed_delete, keyed_delete_all, keyed_delta,
    keyed_update, keyed_update_all, keys_by_uuid, list_add, list_add_all, list_delete,
    list_delete_all, list_delta, list_update, list_update_all, users_of, KeyedProgress,
};
use crate::order::{is_sorted_by, law_sorting_is_a_permutation, rank_of, ranked};
use crate::table::{
    cut, distinct, find, get, holds, lemma_cut, lemma_find, lemma_find_at, lemma_find_none,
    lemma_put, put,
};
use crate::user::{
    by_uuid, keyed_users, store_add_all, store_delete_all, store_delta, store_update_all, unchanged,
    uuid_at, without_uuid, CoreUser, CoreUserDelta, Progress,
};

verus! {

/// Every user stands under the own uuid, no uuid twice, and none of them is blank.
pub open spec fn uuid_keyed(s: Seq<(Seq<char>, CoreUser)>) -> bool {
    &&& distinct(s)
    &&& forall|i: int| 0 <= i < s.len() ==> (#[trigger] s[i]).0 == s[i].1.uuid@ && !s[i].1.blank()
}

/// Putting a user under the own uuid and cutting a uuid keep users under their uuids.
proof fn lemma_uuid_keyed(s: Seq<(Seq<char>, CoreUser)>)
    requires
        uuid_keyed(s),
    ensures
        forall|u: CoreUser| !u.blank() ==> uuid_keyed(#[trigger] put(s, u.uuid@, u)),
        forall|k: Seq<char>| uuid_keyed(#[trigger] cut(s, k)),
        forall|k: Seq<char>| #[trigger] uuid_at(s, k) == find(s, k),
{
    assert forall|u: CoreUser| !u.blank() implies uuid_keyed(#[trigger] put(s, u.uuid@, u)) by {
        lemma_put(s, u.uuid@, u);
        lemma_find(s, u.uuid@);
        let t = put(s, u.uuid@, u);
        assert forall|i: int| 0 <= i < t.len() implies (#[trigger] t[i]).0 == t[i].1.uuid@
            && !t[i].1.blank() by {
            if i < s.len() {
                assert(s[i].0 == s[i].1.uuid@);
            }
        }
    }
    assert forall|k: Seq<char>| uuid_keyed(#[trigger] cut(s, k)) by {
        lemma_cut(s, k);
        lemma_find(s, k);
        let t = cut(s, k);
        if holds(s, k) {
            let f = find(s, k);
            assert forall|i: int| 0 <= i < t.len() implies (#[trigger] t[i]).0 == t[i].1.uuid@
                && !t[i].1.blank() by {
                let j = if i < f { i } else { i + 1 };
                assert(t[i] == s[j]);
            }
        }
    }
    assert forall|k: Seq<char>| #[trigger] uuid_at(s, k) == find(s, k) by {
        let t = by_uuid(s);
        lemma_find(s, k);
        assert forall|i: int| 0 <= i < s.len() implies #[trigger] t[i].0 == s[i].0 by {
            assert(s[i].0 == s[i].1.uuid@);
        }
        let f = find(s, k);
        if f >= 0 {
            assert(t[f].0 == s[f].0);
            assert forall|i: int| 0 <= i < f implies #[trigger] t[i].0 != k by {
                assert(s[i].0 != k);
            }
            lemma_find_at(t, k, f);
        } else {
            assert forall|i: int| 0 <= i < t.len() implies #[trigger] t[i].0 != k by {
                assert(s[i].0 != k);
            }
            lemma_find_none(t, k);
        }
    }
}

/// A list of users taken by their uuids stands under these uuids.
pub proof fn law_users_stand_under_their_uuids(users: Seq<CoreUser>)
    ensures
        uuid_keyed(keyed_users(users, |u: CoreUser| u.uuid@)),
    decreases users.len(),
{
    if users.len() > 0 {
        let init = users.subrange(0, users.len() - 1);
        law_users_stand_under_their_uuids(init);
        lemma_uuid_keyed(keyed_users(init, |u: CoreUser| u.uuid@));
    }
}

/// How many users are gone or new after a change, given the counts before it.
pub open spec fn balanced(
    before: Progress<Seq<char>>,
    after: Progress<Seq<char>>,
    handled: nat,
    removed: nat,
) -> bool {
    &&& after.users.len() + after.deleted + before.added == before.users.len() + before.deleted
        + after.added
    &&& after.added + after.updated + after.missing_updated == before.added + before.updated
        + before.missing_updated + handled
    &&& after.deleted + after.missing_deleted == before.deleted + before.missing_deleted + removed
}

/// Adding users keeps users under their uuids and counts each active user once.
proof fn lemma_list_add_all(p: Progress<Seq<char>>, users: Seq<CoreUser>)
    requires
        uuid_keyed(p.users),
    ensures
        uuid_keyed(list_add_all(p, users).users),
        balanced(p, list_add_all(p, users), active_users(users).len(), 0),
    decreases users.len(),
{
    if users.len() > 0 {
        let init = users.subrange(0, users.len() - 1);
        lemma_list_add_all(p, init);
        lemma_uuid_keyed(list_add_all(p, init).users);
        lemma_find(list_add_all(p, init).users, users[users.len() - 1].uuid@);
    }
}

/// Updating users keeps users under their uuids and counts each active user once.
proof fn lemma_list_update_all(p: Progress<Seq<char>>, users: Seq<CoreUser>)
    requires
        uuid_keyed(p.users),
    ensures
        uuid_keyed(list_update_all(p, users).users),
        balanced(p, list_update_all(p, users), active_users(users).len(), 0),
    decreases users.len(),
{
    if users.len() > 0 {
        let init = users.subrange(0, users.len() - 1);
        lemma_list_update_all(p, init);
        lemma_uuid_keyed(list_update_all(p, init).users);
        lemma_find(list_update_all(p, init).users, users[users.len() - 1].uuid@);
    }
}

/// Deleting uuids keeps users under their uuids, counts each uuid once, and leaves none of them.
proof fn lemma_list_delete_all(p: Progress<Seq<char>>, uuids: Seq<String>)
    requires
        uuid_keyed(p.users),
    ensures
        uuid_keyed(list_delete_all(p, uuids).users),
        balanced(p, list_delete_all(p, uuids), 0, uuids.len()),
        forall|i: int|
            0 <= i < uuids.len() ==> !holds(list_delete_all(p, uuids).users, (#[trigger] uuids[i])@),
        forall|k: Seq<char>|
            !(exists|i: int| 0 <= i < uuids.len() && (#[trigger] uuids[i])@ == k) ==> #[trigger] get(
                list_delete_all(p, uuids).users,
                k,
            ) == get(p.users, k),
    decreases uuids.len(),
{
    if uuids.len() > 0 {
        let init = uuids.subrange(0, uuids.len() - 1);
        let last = uuids[uuids.len() - 1];
        lemma_list_delete_all(p, init);
        let q = list_delete_all(p, init);
        lemma_uuid_keyed(q.users);
        lemma_find(q.users, last@);
        lemma_cut(q.users, last@);
        let t = list_delete_all(p, uuids);
        assert(t.users == cut(q.users, last@));
        assert forall|i: int| 0 <= i < uuids.len() implies !holds(t.users, (#[trigger] uuids[i])@) by {
            if uuids[i]@ == last@ {
                assert(get(t.users, last@) is None);
            } else {
                assert(init[i] == uuids[i]);
                assert(get(t.users, uuids[i]@) == get(q.users, uuids[i]@));
            }
        }
        assert forall|k: Seq<char>|
            !(exists|i: int| 0 <= i < uuids.len() && (#[trigger] uuids[i])@ == k) implies #[trigger] get(
            t.users,
            k,
        ) == get(p.users, k) by {
            assert(uuids[uuids.len() - 1]@ != k);
            if exists|i: int| 0 <= i < init.len() && (#[trigger] init[i])@ == k {
                let i = choose|i: int| 0 <= i < init.len() && (#[trigger] init[i])@ == k;
                assert(uuids[i]@ == k);
            }
            assert(get(q.users, k) == get(p.users, k));
        }
    }
}

/// An incremental change leaves no blank user, no uuid twice and no deleted uuid. The number of
/// users grows by those added and shrinks by those deleted; every user that is not blank counts
/// once as added, updated or missing, and every deletion once as deleted or missing.
pub proof fn law_list_delta(users: Seq<(Seq<char>, CoreUser)>, delta: CoreUserDelta)
    requires
        uuid_keyed(users),
    ensures
        uuid_keyed(list_delta(users, delta).users),
        list_delta(users, delta).users.len() + list_delta(users, delta).deleted == users.len()
            + list_delta(users, delta).added,
        list_delta(users, delta).added + list_delta(users, delta).updated + list_delta(
            users,
            delta,
        ).missing_updated == active_users(delta.added@).len() + active_users(delta.updated@).len(),
        list_delta(users, delta).deleted + list_delta(users, delta).missing_deleted
            == delta.deleted@.len(),
        forall|i: int|
            0 <= i < delta.deleted@.len() ==> !holds(
                list_delta(users, delta).users,
                (#[trigger] delta.deleted@[i])@,
            ),
{
    let a = list_add_all(unchanged(users), delta.added@);
    lemma_list_add_all(unchanged(users), delta.added@);
    lemma_list_update_all(a, delta.updated@);
    lemma_list_delete_all(list_update_all(a, delta.updated@), delta.deleted@);
}

/// The list that an incremental change leaves is ordered by uuid and holds no uuid twice.
pub proof fn law_list_is_ordered_and_unique(s: Seq<(Seq<char>, CoreUser)>)
    requires
        uuid_keyed(s),
    ensures
        is_sorted_by(ranked(users_of(s)), rank_of()),
        ranked(users_of(s)).len() == s.len(),
        forall|u: CoreUser|
            #[trigger] ranked(users_of(s)).contains(u) <==> get(s, u.uuid@) == Some(u),
        forall|i: int, j: int|
            0 <= i < j < s.len() ==> (#[trigger] ranked(users_of(s))[i]).uuid@ != (
            #[trigger] ranked(users_of(s))[j]).uuid@,
{
    let all = users_of(s);
    let out = ranked(all);
    law_sorting_is_a_permutation(all, rank_of());
    assert forall|u: CoreUser| #[trigger] out.contains(u) <==> get(s, u.uuid@) == Some(u) by {
        if out.contains(u) {
            assert(all.contains(u));
            let k = choose|k: int| 0 <= k < all.len() && all[k] == u;
            assert(s[k].1 == u && s[k].0 == u.uuid@);
            assert forall|i: int| 0 <= i < k implies #[trigger] s[i].0 != u.uuid@ by {
                assert(s[k].0 == u.uuid@);
            }
            lemma_find_at(s, u.uuid@, k);
        }
        if get(s, u.uuid@) == Some(u) {
            lemma_find(s, u.uuid@);
            let f = find(s, u.uuid@);
            assert(all[f] == u);
            assert(all.contains(u));
        }
    }
    assert(all.no_duplicates()) by {
        assert forall|i: int, j: int| 0 <= i < j < all.len() implies all[i] != all[j] by {
            assert(s[i].0 == s[i].1.uuid@ && s[j].0 == s[j].1.uuid@);
            assert(s[i].0 != s[j].0);
        }
    }
    assert(out.no_duplicates()) by {
        broadcast use vstd::seq_lib::group_to_multiset_ensures;
        all.lemma_multiset_has_no_duplicates();
        out.lemma_multiset_has_no_duplicates_conv();
    }
    assert forall|i: int, j: int| 0 <= i < j < s.len() implies (#[trigger] out[i]).uuid@ != (
    #[trigger] out[j]).uuid@ by {
        assert(out.contains(out[i]) && out.contains(out[j]));
        assert(get(s, out[i].uuid@) == Some(out[i]));
        assert(get(s, out[j].uuid@) == Some(out[j]));
    }
}

/// Two ways of keeping users that hold the same users, with the same counts.
pub open spec fn same_users(p: Progress<Seq<char>>, q: Progress<Seq<char>>) -> bool {
    &&& uuid_keyed(p.users)
    &&& uuid_keyed(q.users)
    &&& p.users.len() == q.users.len()
    &&& forall|k: Seq<char>| #[trigger] get(p.users, k) == get(q.users, k)
    &&& p.added == q.added
    &&& p.updated == q.updated
    &&& p.deleted == q.deleted
    &&& p.missing_updated == q.missing_updated
    &&& p.missing_deleted == q.missing_deleted
}

/// One user replaced in a store as in a list.
proof fn lemma_store_put(
    s: Seq<(Seq<char>, CoreUser)>,
    t: Seq<(Seq<char>, CoreUser)>,
    user: CoreUser,
)
    requires
        uuid_keyed(s),
        uuid_keyed(t),
        s.len() == t.len(),
        forall|k: Seq<char>| #[trigger] get(s, k) == get(t, k),
        !user.blank(),
    ensures
        uuid_keyed(put(without_uuid(s, user.uuid@), user.uuid@, user)),
        uuid_keyed(put(t, user.uuid@, user)),
        put(without_uuid(s, user.uuid@), user.uuid@, user).len() == put(t, user.uuid@, user).len(),
        forall|k: Seq<char>|
            #[trigger] get(put(without_uuid(s, user.uuid@), user.uuid@, user), k) == get(
                put(t, user.uuid@, user),
                k,
            ),
        (uuid_at(s, user.uuid@) >= 0) == holds(t, user.uuid@),
{
    let id = user.uuid@;
    lemma_uuid_keyed(s);
    lemma_uuid_keyed(t);
    lemma_find(s, id);
    lemma_find(t, id);
    lemma_cut(s, id);
    assert(uuid_at(s, id) == find(s, id));
    assert(get(s, id) == get(t, id));
    let c = cut(s, id);
    assert(without_uuid(s, id) == c);
    lemma_uuid_keyed(c);
    lemma_put(c, id, user);
    lemma_put(t, id, user);
    assert(get(c, id) is None);
    assert forall|k: Seq<char>| #[trigger] get(put(c, id, user), k) == get(put(t, id, user), k) by {
        if k != id {
            assert(get(c, k) == get(s, k));
            assert(get(s, k) == get(t, k));
        }
    }
}

/// Adding to a store under uuids does what adding to a list does.
proof fn lemma_store_add_all(p: Progress<Seq<char>>, q: Progress<Seq<char>>, users: Seq<CoreUser>)
    requires
        same_users(p, q),
    ensures
        same_users(store_add_all(p, users, |u: CoreUser| u.uuid@), list_add_all(q, users)),
    decreases users.len(),
{
    if users.len() > 0 {
        let init = users.subrange(0, users.len() - 1);
        let last = users[users.len() - 1];
        lemma_store_add_all(p, q, init);
        let a = store_add_all(p, init, |u: CoreUser| u.uuid@);
        let b = list_add_all(q, init);
        if !last.blank() {
            lemma_store_put(a.users, b.users, last);
        }
    }
}

/// Updating a store under uuids does what updating a list does.
proof fn lemma_store_update_all(
    p: Progress<Seq<char>>,
    q: Progress<Seq<char>>,
    users: Seq<CoreUser>,
)
    requires
        same_users(p, q),
    ensures
        same_users(store_update_all(p, users, |u: CoreUser| u.uuid@), list_update_all(q, users)),
    decreases users.len(),
{
    if users.len() > 0 {
        let init = users.subrange(0, users.len() - 1);
        let last = users[users.len() - 1];
        lemma_store_update_all(p, q, init);
        let a = store_update_all(p, init, |u: CoreUser| u.uuid@);
        let b = list_update_all(q, init);
        if !last.blank() {
            lemma_store_put(a.users, b.users, last);
        }
    }
}

/// Deleting from a store under uuids does what deleting from a list does.
proof fn lemma_store_delete_all(p: Progress<Seq<char>>, q: Progress<Seq<char>>, uuids: Seq<String>)
    requires
        same_users(p, q),
    ensures
        same_users(store_delete_all(p, uuids), list_delete_all(q, uuids)),
    decreases uuids.len(),
{
    if uuids.len() > 0 {
        let init = uuids.subrange(0, uuids.len() - 1);
        let id = uuids[uuids.len() - 1]@;
        lemma_store_delete_all(p, q, init);
        let a = store_delete_all(p, init);
        let b = list_delete_all(q, init);
        lemma_uuid_keyed(a.users);
        lemma_uuid_keyed(b.users);
        lemma_find(a.users, id);
        lemma_find(b.users, id);
        lemma_cut(a.users, id);
        lemma_cut(b.users, id);
        assert(get(a.users, id) == get(b.users, id));
        assert(uuid_at(a.users, id) == find(a.users, id));
        assert forall|k: Seq<char>| #[trigger] get(cut(a.users, id), k) == get(cut(b.users, id), k) by {
            if k != id {
                assert(get(a.users, k) == get(b.users, k));
            }
        }
    }
}

/// A store whose users are under their uuids applies a change as a list of users does: the same
/// users stay, and the same counts are reported.
pub proof fn law_store_agrees_with_list(users: Seq<(Seq<char>, CoreUser)>, delta: CoreUserDelta)
    requires
        uuid_keyed(users),
    ensures
        same_users(store_delta(users, delta, |u: CoreUser| u.uuid@), list_delta(users, delta)),
{
    let p = unchanged(users);
    lemma_store_add_all(p, p, delta.added@);
    let a = store_add_all(p, delta.added@, |u: CoreUser| u.uuid@);
    let b = list_add_all(p, delta.added@);
    lemma_store_update_all(a, b, delta.updated@);
    lemma_store_delete_all(
        store_update_all(a, delta.updated@, |u: CoreUser| u.uuid@),
        list_update_all(b, delta.updated@),
        delta.deleted@,
    );
}

/// The record of keys names exactly the uuids that are there, each as its own key.
pub open spec fn keys_match(p: KeyedProgress<Seq<char>>) -> bool {
    &&& distinct(p.keys)
    &&& forall|k: Seq<char>|
        #[trigger] get(p.keys, k) == (if holds(p.base.users, k) {
            Some(k)
        } else {
            None
        })
}

/// A record of keys under uuids is made of the uuids themselves.
proof fn lemma_keys_by_uuid(users: Seq<(Seq<char>, CoreUser)>)
    requires
        uuid_keyed(users),
    ensures
        distinct(keys_by_uuid(users)),
        forall|k: Seq<char>|
            #[trigger] get(keys_by_uuid(users), k) == (if holds(users, k) {
                Some(k)
            } else {
                None
            }),
    decreases users.len(),
{
    if users.len() > 0 {
        let init = users.subrange(0, users.len() - 1);
        let last = users[users.len() - 1];
        assert(uuid_keyed(init)) by {
            assert forall|i: int, j: int| 0 <= i < j < init.len() implies #[trigger] init[i].0
                != #[trigger] init[j].0 by {
                assert(init[i] == users[i] && init[j] == users[j]);
            }
            assert forall|i: int| 0 <= i < init.len() implies (#[trigger] init[i]).0
                == init[i].1.uuid@ && !init[i].1.blank() by {
                assert(init[i] == users[i]);
            }
        }
        lemma_keys_by_uuid(init);
        lemma_put(keys_by_uuid(init), last.1.uuid@, last.0);
        assert(last.0 == last.1.uuid@);
        assert forall|k: Seq<char>| #[trigger] get(keys_by_uuid(users), k) == (if holds(users, k) {
            Some(k)
        } else {
            None
        }) by {
            lemma_find(users, k);
            lemma_find(init, k);
            if k != last.0 {
                assert(get(keys_by_uuid(init), k) == (if holds(init, k) {
                    Some(k)
                } else {
                    None
                }));
            }
        }
    }
}

/// One user put under the uuid in a keyed table as in a list.
proof fn lemma_keyed_put(p: KeyedProgress<Seq<char>>, q: Progress<Seq<char>>, user: CoreUser)
    requires
        same_users(p.base, q),
        keys_match(p),
        !user.blank(),
    ensures
        same_users(keyed_add(p, user, Some(user.uuid@)).base, list_add(q, user)),
        keys_match(keyed_add(p, user, Some(user.uuid@))),
        same_users(keyed_update(p, user, Some(user.uuid@)).base, list_update(q, user)),
        keys_match(keyed_update(p, user, Some(user.uuid@))),
{
    let id = user.uuid@;
    let s = p.base.users;
    let t = q.users;
    lemma_store_put(s, t, user);
    lemma_uuid_keyed(s);
    lemma_find(s, id);
    lemma_cut(s, id);
    lemma_put(p.keys, id, id);
    assert(get(p.keys, id) == (if holds(s, id) {
        Some(id)
    } else {
        None
    }));
    assert(uuid_at(s, id) == find(s, id));
    assert(without_uuid(s, id) == cut(s, id));
    let out = put(cut(s, id), id, user);
    lemma_put(cut(s, id), id, user);
    assert forall|k: Seq<char>| #[trigger] get(put(p.keys, id, id), k) == (if holds(out, k) {
        Some(k)
    } else {
        None
    }) by {
        if k != id {
            assert(get(out, k) == get(cut(s, id), k));
            assert(get(cut(s, id), k) == get(s, k));
            assert(get(p.keys, k) == (if holds(s, k) {
                Some(k)
            } else {
                None
            }));
        } else {
            assert(get(out, id) == Some(user));
        }
    }
    if !holds(s, id) {
        assert(cut(s, id) == s);
    }
}

/// One uuid deleted from a keyed table as from a list.
proof fn lemma_keyed_delete(p: KeyedProgress<Seq<char>>, q: Progress<Seq<char>>, id: Seq<char>)
    requires
        same_users(p.base, q),
        keys_match(p),
    ensures
        same_users(keyed_delete(p, id).base, list_delete(q, id)),
        keys_match(keyed_delete(p, id)),
{
    let s = p.base.users;
    let t = q.users;
    lemma_uuid_keyed(s);
    lemma_uuid_keyed(t);
    lemma_find(s, id);
    lemma_find(t, id);
    lemma_cut(s, id);
    lemma_cut(t, id);
    lemma_cut(p.keys, id);
    assert(get(s, id) == get(t, id));
    assert(get(p.keys, id) == (if holds(s, id) {
        Some(id)
    } else {
        None
    }));
    assert forall|k: Seq<char>| #[trigger] get(cut(s, id), k) == get(cut(t, id), k) by {
        if k != id {
            assert(get(s, k) == get(t, k));
        }
    }
    assert forall|k: Seq<char>| #[trigger] get(cut(p.keys, id), k) == (if holds(cut(s, id), k) {
        Some(k)
    } else {
        None
    }) by {
        assert(get(p.keys, k) == (if holds(s, k) {
            Some(k)
        } else {
            None
        }));
        if k == id {
            assert(get(cut(s, id), id) is None);
        } else {
            assert(get(cut(s, id), k) == get(s, k));
        }
    }
}

/// The key of a user that stands under the own uuid.
pub open spec fn own_uuid() -> spec_fn(CoreUser) -> Option<Seq<char>> {
    |u: CoreUser| Some(u.uuid@)
}

/// Adding to a keyed table does what adding to a list does.
proof fn lemma_keyed_add_all(
    p: KeyedProgress<Seq<char>>,
    q: Progress<Seq<char>>,
    users: Seq<CoreUser>,
)
    requires
        same_users(p.base, q),
        keys_match(p),
    ensures
        same_users(keyed_add_all(p, users, own_uuid()).base, list_add_all(q, users)),
        keys_match(keyed_add_all(p, users, own_uuid())),
    decreases users.len(),
{
    if users.len() > 0 {
        let init = users.subrange(0, users.len() - 1);
        let last = users[users.len() - 1];
        lemma_keyed_add_all(p, q, init);
        if !last.blank() {
            lemma_keyed_put(keyed_add_all(p, init, own_uuid()), list_add_all(q, init), last);
        }
    }
}

/// Updating a keyed table does what updating a list does.
proof fn lemma_keyed_update_all(
    p: KeyedProgress<Seq<char>>,
    q: Progress<Seq<char>>,
    users: Seq<CoreUser>,
)
    requires
        same_users(p.base, q),
        keys_match(p),
    ensures
        same_users(keyed_update_all(p, users, own_uuid()).base, list_update_all(q, users)),
        keys_match(keyed_update_all(p, users, own_uuid())),
    decreases users.len(),
{
    if users.len() > 0 {
        let init = users.subrange(0, users.len() - 1);
        let last = users[users.len() - 1];
        lemma_keyed_update_all(p, q, init);
        if !last.blank() {
            lemma_keyed_put(keyed_update_all(p, init, own_uuid()), list_update_all(q, init), last);
        }
    }
}

/// Deleting from a keyed table does what deleting from a list does.
proof fn lemma_keyed_delete_all(
    p: KeyedProgress<Seq<char>>,
    q: Progress<Seq<char>>,
    uuids: Seq<String>,
)
    requires
        same_users(p.base, q),
        keys_match(p),
    ensures
        same_users(keyed_delete_all(p, uuids).base, list_delete_all(q, uuids)),
        keys_match(keyed_delete_all(p, uuids)),
    decreases uuids.len(),
{
    if uuids.len() > 0 {
        let init = uuids.subrange(0, uuids.len() - 1);
        lemma_keyed_delete_all(p, q, init);
        lemma_keyed_delete(
            keyed_delete_all(p, init),
            list_delete_all(q, init),
            uuids[uuids.len() - 1]@,
        );
    }
}

/// A keyed table whose users are under their uuids applies a change as a list of users does.
pub proof fn law_keyed_table_agrees_with_list(
    users: Seq<(Seq<char>, CoreUser)>,
    delta: CoreUserDelta,
)
    requires
        uuid_keyed(users),
    ensures
        same_users(keyed_delta(users, delta, own_uuid()).base, list_delta(users, delta)),
{
    let p = KeyedProgress { base: unchanged(users), keys: keys_by_uuid(users) };
    let q = unchanged(users);
    lemma_keys_by_uuid(users);
    lemma_keyed_add_all(p, q, delta.added@);
    let a = keyed_add_all(p, delta.added@, own_uuid());
    let b = list_add_all(q, delta.added@);
    lemma_keyed_update_all(a, b, delta.updated@);
    lemma_keyed_delete_all(
        keyed_update_all(a, delta.updated@, own_uuid()),
        list_update_all(b, delta.updated@),
        delta.deleted@,
    );
}

/// What a user list gives back of an added user: a user that is added last, and neither updated
/// nor deleted, is read back as added.
pub proof fn law_added_user_is_read_back(
    users: Seq<(Seq<char>, CoreUser)>,
    delta: CoreUserDelta,
    user: CoreUser,
)
    requires
        uuid_keyed(users),
        !user.blank(),
        delta.added@.len() > 0,
        delta.added@[delta.added@.len() - 1] == user,
        forall|i: int| 0 <= i < delta.updated@.len() ==> (#[trigger] delta.updated@[i]).uuid@ != user.uuid@,
        forall|i: int| 0 <= i < delta.deleted@.len() ==> (#[trigger] delta.deleted@[i])@ != user.uuid@,
    ensures
        get(list_delta(users, delta).users, user.uuid@) == Some(user),
{
    let p = unchanged(users);
    let a = list_add_all(p, delta.added@);
    lemma_list_add_all(p, delta.added@);
    let before = list_add_all(p, delta.added@.subrange(0, delta.added@.len() - 1));
    lemma_put(before.users, user.uuid@, user);
    assert(get(a.users, user.uuid@) == Some(user));
    lemma_update_leaves_others(a, delta.updated@, user.uuid@);
    lemma_list_update_all(a, delta.updated@);
    lemma_list_delete_all(list_update_all(a, delta.updated@), delta.deleted@);
}

/// Updates leave every uuid alone that they do not name.
proof fn lemma_update_leaves_others(p: Progress<Seq<char>>, users: Seq<CoreUser>, id: Seq<char>)
    requires
        forall|i: int| 0 <= i < users.len() ==> (#[trigger] users[i]).uuid@ != id,
    ensures
        get(list_update_all(p, users).users, id) == get(p.users, id),
    decreases users.len(),
{
    if users.len() > 0 {
        let init = users.subrange(0, users.len() - 1);
        let last = users[users.len() - 1];
        assert forall|i: int| 0 <= i < init.len() implies (#[trigger] init[i]).uuid@ != id by {
            assert(init[i] == users[i]);
        }
        lemma_update_leaves_others(p, init, id);
        assert(users[users.len() - 1].uuid@ != id);
        lemma_put(list_update_all(p, init).users, last.uuid@, last);
    }
}

} // verus!
