//! What each step of a change does to the users, and how it is counted.

use vstd::prelude::*;

use crate::delta::{
    active_users, list_add, list_after, list_delete, list_update,
};
use crate::keyed_laws::{lemma_uuid_at, stands, well_keyed};
use crate::order::{is_sorted_by, law_sorting_is_a_permutation, lemma_single_rank, text_less};
use crate::table::{
    distinct, find, get, holds, lemma_cut, lemma_find, lemma_put, lemma_remove_at,
};
use crate::text::trim;
use crate::user::{
    count_of, keyed_users, replaced, store_add, store_delete, store_update, tally, unchanged,
    uuid_at, without_uuid, CoreUser, CoreUserDelta, CoreUserDeltaResult, Progress,
};

verus! {

/// A user is known by the password, or else by the uuid; one whose uuid is nothing but white space
/// is none.
pub proof fn law_credential(user: CoreUser)
    ensures
        user.password matches Some(password) ==> user.credential_text() == password@,
        user.password is None ==> user.credential_text() == user.uuid@,
        user.blank() <==> trim(user.uuid@).len() == 0,
{
}

/// The active users of a list are those that are not blank, in their order.
pub proof fn law_active_users(users: Seq<CoreUser>)
    ensures
        active_users(users) == users.filter(|u: CoreUser| trim(u.uuid@).len() > 0),
    decreases users.len(),
{
    reveal(Seq::filter);
    if users.len() > 0 {
        assert(users.drop_last() =~= users.subrange(0, users.len() - 1));
        law_active_users(users.drop_last());
    }
}

/// Of the users of a list with one key the last stands under it; blank users stand nowhere.
pub proof fn law_last_user_stands_under_key<K>(
    users: Seq<CoreUser>,
    user: CoreUser,
    key: spec_fn(CoreUser) -> K,
    other: K,
)
    requires
        other != key(user),
    ensures
        trim(user.uuid@).len() > 0 ==> get(keyed_users(users.push(user), key), key(user)) == Some(
            user,
        ),
        trim(user.uuid@).len() == 0 ==> keyed_users(users.push(user), key) == keyed_users(
            users,
            key,
        ),
        get(keyed_users(users.push(user), key), other) == get(keyed_users(users, key), other),
        keyed_users(Seq::empty(), key).len() == 0,
{
    assert(users.push(user).subrange(0, users.len() as int) =~= users);
    lemma_put(keyed_users(users, key), key(user), user);
}

/// The list that a full change leaves are its active users, ordered by their uuids.
pub proof fn law_full_list(users: Seq<CoreUser>, delta: CoreUserDelta, i: int, j: int)
    requires
        delta.full is Some,
        0 <= i < j < list_after(users, delta).len(),
    ensures
        ({
            let all = list_after(users, delta);
            &&& all.to_multiset() == delta.full->0@.filter(
                |u: CoreUser| trim(u.uuid@).len() > 0,
            ).to_multiset()
            &&& !text_less(all[j].uuid@, all[i].uuid@)
        }),
{
    let all = list_after(users, delta);
    law_active_users(delta.full->0@);
    law_sorting_is_a_permutation(active_users(delta.full->0@), crate::order::rank_of());
    lemma_single_rank(all[j].uuid@, all[i].uuid@);
    assert(is_sorted_by(all, crate::order::rank_of::<CoreUser>()));
}

/// Adding a user to a list replaces the one with its uuid, which counts as an update, or else adds
/// it; other users stay, and a blank user changes nothing.
pub proof fn law_adding_to_list(p: Progress<Seq<char>>, user: CoreUser, other: Seq<char>)
    requires
        other != user.uuid@,
    ensures
        ({
            let q = list_add(p, user);
            &&& trim(user.uuid@).len() == 0 ==> q == p
            &&& trim(user.uuid@).len() > 0 ==> {
                &&& get(q.users, user.uuid@) == Some(user)
                &&& get(p.users, user.uuid@) is Some ==> q.updated == p.updated + 1 && q.added
                    == p.added
                &&& get(p.users, user.uuid@) is None ==> q.added == p.added + 1 && q.updated
                    == p.updated
            }
            &&& get(q.users, other) == get(p.users, other)
            &&& q.deleted == p.deleted && q.missing_deleted == p.missing_deleted
                && q.missing_updated == p.missing_updated
        }),
{
    lemma_put(p.users, user.uuid@, user);
}

/// Updating a user of a list replaces the one with its uuid; without one it counts as missing.
pub proof fn law_updating_list(p: Progress<Seq<char>>, user: CoreUser, other: Seq<char>)
    requires
        other != user.uuid@,
    ensures
        ({
            let q = list_update(p, user);
            &&& trim(user.uuid@).len() == 0 ==> q == p
            &&& trim(user.uuid@).len() > 0 && get(p.users, user.uuid@) is Some ==> get(
                q.users,
                user.uuid@,
            ) == Some(user) && q.updated == p.updated + 1 && q.missing_updated == p.missing_updated
            &&& trim(user.uuid@).len() > 0 && get(p.users, user.uuid@) is None ==> q.users
                == p.users && q.updated == p.updated && q.missing_updated == p.missing_updated + 1
            &&& get(q.users, other) == get(p.users, other)
            &&& q.added == p.added && q.deleted == p.deleted && q.missing_deleted
                == p.missing_deleted
        }),
{
    lemma_put(p.users, user.uuid@, user);
}

/// Deleting a uuid from a list takes out its user; without one it counts as missing.
pub proof fn law_deleting_from_list(
    p: Progress<Seq<char>>,
    uuid: Seq<char>,
    other: Seq<char>,
)
    requires
        distinct(p.users),
        other != uuid,
    ensures
        ({
            let q = list_delete(p, uuid);
            &&& get(q.users, uuid) is None
            &&& get(q.users, other) == get(p.users, other)
            &&& get(p.users, uuid) is Some ==> q.deleted == p.deleted + 1 && q.missing_deleted
                == p.missing_deleted
            &&& get(p.users, uuid) is None ==> q.users == p.users && q.deleted == p.deleted
                && q.missing_deleted == p.missing_deleted + 1
            &&& q.added == p.added && q.updated == p.updated && q.missing_updated
                == p.missing_updated
        }),
{
    lemma_cut(p.users, uuid);
}

/// Adding a user to a store under a key of its own: the user stands under the key, in place of the
/// one with its uuid, which counts as an update, or else as one more. Users under other keys and
/// with other uuids stay.
pub proof fn law_adding_to_store<K>(
    p: Progress<K>,
    user: CoreUser,
    key: spec_fn(CoreUser) -> K,
    other: K,
)
    requires
        well_keyed(p.users, key),
        other != key(user),
    ensures
        ({
            let q = store_add(p, user, key(user));
            &&& trim(user.uuid@).len() == 0 ==> q == p
            &&& trim(user.uuid@).len() > 0 ==> {
                &&& get(q.users, key(user)) == Some(user)
                &&& stands(p.users, user.uuid@) ==> q.updated == p.updated + 1 && q.added
                    == p.added
                &&& !stands(p.users, user.uuid@) ==> q.added == p.added + 1 && q.updated
                    == p.updated
                &&& get(p.users, other) matches Some(u) ==> get(q.users, other) == (if u.uuid@
                    == user.uuid@ {
                    None
                } else {
                    Some(u)
                })
                &&& get(p.users, other) is None ==> get(q.users, other) is None
            }
            &&& q.deleted == p.deleted && q.missing_deleted == p.missing_deleted
                && q.missing_updated == p.missing_updated
        }),
{
    lemma_uuid_at(p.users, user.uuid@);
    lemma_put(p.users, key(user), user);
    lemma_put(without_uuid(p.users, user.uuid@), key(user), user);
    lemma_without(p.users, user.uuid@, other, key);
}

/// Updating a user of a store does what adding it does where its uuid stands; elsewhere it changes
/// no user, and counts as missing.
pub proof fn law_updating_store<K>(p: Progress<K>, user: CoreUser, key: spec_fn(CoreUser) -> K)
    requires
        well_keyed(p.users, key),
    ensures
        ({
            let q = store_update(p, user, key(user));
            &&& trim(user.uuid@).len() == 0 ==> q == p
            &&& trim(user.uuid@).len() > 0 && stands(p.users, user.uuid@) ==> q == store_add(
                p,
                user,
                key(user),
            )
            &&& trim(user.uuid@).len() > 0 && !stands(p.users, user.uuid@) ==> q.users == p.users
                && q.missing_updated == p.missing_updated + 1 && q.updated == p.updated
            &&& q.added == p.added && q.deleted == p.deleted && q.missing_deleted
                == p.missing_deleted
        }),
{
    lemma_uuid_at(p.users, user.uuid@);
}

/// Deleting a uuid from a store takes out its user and no other; without one it counts as missing.
pub proof fn law_deleting_from_store<K>(
    p: Progress<K>,
    uuid: Seq<char>,
    key: spec_fn(CoreUser) -> K,
    other: K,
)
    requires
        well_keyed(p.users, key),
    ensures
        ({
            let q = store_delete(p, uuid);
            &&& get(p.users, other) matches Some(u) ==> get(q.users, other) == (if u.uuid@ == uuid {
                None
            } else {
                Some(u)
            })
            &&& get(p.users, other) is None ==> get(q.users, other) is None
            &&& stands(p.users, uuid) ==> q.deleted == p.deleted + 1 && q.missing_deleted
                == p.missing_deleted
            &&& !stands(p.users, uuid) ==> q.users == p.users && q.deleted == p.deleted
                && q.missing_deleted == p.missing_deleted + 1
            &&& q.added == p.added && q.updated == p.updated && q.missing_updated
                == p.missing_updated
        }),
{
    lemma_uuid_at(p.users, uuid);
    lemma_without(p.users, uuid, other, key);
}

/// What stands under a key once a uuid is taken out.
proof fn lemma_without<K>(
    s: Seq<(K, CoreUser)>,
    uuid: Seq<char>,
    other: K,
    key: spec_fn(CoreUser) -> K,
)
    requires
        well_keyed(s, key),
    ensures
        get(s, other) matches Some(u) ==> get(without_uuid(s, uuid), other) == (if u.uuid@ == uuid {
            None
        } else {
            Some(u)
        }),
        get(s, other) is None ==> get(without_uuid(s, uuid), other) is None,
{
    lemma_uuid_at(s, uuid);
    lemma_find(s, other);
    let at = uuid_at(s, uuid);
    if at >= 0 {
        lemma_remove_at(s, at);
        if holds(s, other) {
            let f = find(s, other);
            if f != at {
                assert(s[f].0 != s[at].0) by {
                    if f < at {
                        assert(s[f].0 != s[at].0);
                    } else {
                        assert(s[at].0 != s[f].0);
                    }
                }
                assert(s[f].1.uuid@ != s[at].1.uuid@);
            }
        } else {
            assert(s[at].0 != other);
        }
    } else if holds(s, other) {
        assert(s[find(s, other)].1.uuid@ != uuid);
    }
}

/// What is reported of a change are its counts and how many users are active after it.
pub proof fn law_report<K>(p: Progress<K>, r: CoreUserDeltaResult, active: nat, n: nat)
    ensures
        tally(p, r) ==> {
            &&& p.added <= usize::MAX ==> r.added == p.added
            &&& p.updated <= usize::MAX ==> r.updated == p.updated
            &&& p.deleted <= usize::MAX ==> r.deleted == p.deleted
            &&& p.missing_updated <= usize::MAX ==> r.missing_updated == p.missing_updated
            &&& p.missing_deleted <= usize::MAX ==> r.missing_deleted == p.missing_deleted
            &&& r.active_users == p.users.len()
            &&& !r.full_applied
        },
        replaced(active, r) ==> r.active_users == active && r.full_applied && r.added == 0
            && r.updated == 0 && r.deleted == 0 && r.missing_updated == 0 && r.missing_deleted == 0,
        n <= usize::MAX ==> count_of(n) == n,
        n > usize::MAX ==> count_of(n) == usize::MAX,
        unchanged(p.users).users == p.users,
        unchanged(p.users).added == 0 && unchanged(p.users).updated == 0 && unchanged(
            p.users,
        ).deleted == 0,
        unchanged(p.users).missing_updated == 0 && unchanged(p.users).missing_deleted == 0,
{
}

} // verus!
