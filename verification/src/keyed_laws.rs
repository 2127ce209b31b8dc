//! What holds of users that stand under keys of their own, such as hashes of their credentials.

use vstd::prelude::*;

use crate::table::{distinct, find, lemma_find, lemma_put, lemma_remove_at, put};
use crate::trojan_server::{hash_rule, law_request_is_authenticated, request};
use crate::user::{
    by_uuid, keyed_users, store_add_all, store_delete_all, store_delta, store_update_all, unchanged,
    uuid_at, without_uuid, CoreUser, CoreUserDelta, Progress,
};
use crate::wire::arrived;

verus! {

/// Every user stands under the key that the rule gives, no key and no uuid stands twice, and no
/// user is blank.
pub open spec fn well_keyed<K>(s: Seq<(K, CoreUser)>, key: spec_fn(CoreUser) -> K) -> bool {
    &&& distinct(s)
    &&& forall|i: int| 0 <= i < s.len() ==> (#[trigger] s[i]).0 == key(s[i].1) && !s[i].1.blank()
    &&& forall|i: int, j: int|
        0 <= i < j < s.len() ==> (#[trigger] s[i]).1.uuid@ != (#[trigger] s[j]).1.uuid@
}

/// Whether a user with the uuid stands somewhere.
pub open spec fn stands<K>(s: Seq<(K, CoreUser)>, uuid: Seq<char>) -> bool {
    exists|i: int| 0 <= i < s.len() && (#[trigger] s[i]).1.uuid@ == uuid
}

/// A user stands where its uuid is found.
pub proof fn lemma_uuid_at<K>(s: Seq<(K, CoreUser)>, uuid: Seq<char>)
    ensures
        -1 <= uuid_at(s, uuid) < s.len(),
        stands(s, uuid) == (uuid_at(s, uuid) >= 0),
        uuid_at(s, uuid) >= 0 ==> s[uuid_at(s, uuid)].1.uuid@ == uuid,
{
    let t = by_uuid(s);
    lemma_find(t, uuid);
    let f = find(t, uuid);
    if f >= 0 {
        assert(t[f].0 == s[f].1.uuid@);
    } else if stands(s, uuid) {
        let i = choose|i: int| 0 <= i < s.len() && (#[trigger] s[i]).1.uuid@ == uuid;
        assert(t[i].0 == uuid);
    }
}

/// Taking the user with a uuid away keeps the others as they are, and the uuid stands nowhere.
proof fn lemma_without_uuid<K>(
    s: Seq<(K, CoreUser)>,
    key: spec_fn(CoreUser) -> K,
    uuid: Seq<char>,
)
    requires
        well_keyed(s, key),
    ensures
        well_keyed(without_uuid(s, uuid), key),
        !stands(without_uuid(s, uuid), uuid),
        forall|other: Seq<char>|
            #[trigger] stands(without_uuid(s, uuid), other) ==> stands(s, other),
{
    lemma_uuid_at(s, uuid);
    let f = uuid_at(s, uuid);
    let t = without_uuid(s, uuid);
    if f >= 0 {
        lemma_remove_at(s, f);
        assert forall|i: int| 0 <= i < t.len() implies (#[trigger] t[i]).0 == key(t[i].1)
            && !t[i].1.blank() && t[i].1.uuid@ != uuid by {
            let j = if i < f {
                i
            } else {
                i + 1
            };
            assert(t[i] == s[j]);
            assert(s[j].1.uuid@ != s[f].1.uuid@);
        }
        assert forall|i: int, j: int| 0 <= i < j < t.len() implies (#[trigger] t[i]).1.uuid@ != (
        #[trigger] t[j]).1.uuid@ by {
            let si = if i < f {
                i
            } else {
                i + 1
            };
            let sj = if j < f {
                j
            } else {
                j + 1
            };
            assert(t[i] == s[si] && t[j] == s[sj]);
        }
        assert forall|other: Seq<char>| #[trigger] stands(t, other) implies stands(s, other) by {
            let i = choose|i: int| 0 <= i < t.len() && (#[trigger] t[i]).1.uuid@ == other;
            let j = if i < f {
                i
            } else {
                i + 1
            };
            assert(t[i] == s[j]);
        }
    }
}

/// Putting a user whose uuid stands nowhere under its key keeps keys and uuids apart.
proof fn lemma_put_user<K>(s: Seq<(K, CoreUser)>, key: spec_fn(CoreUser) -> K, user: CoreUser)
    requires
        well_keyed(s, key),
        !stands(s, user.uuid@),
        !user.blank(),
    ensures
        well_keyed(put(s, key(user), user), key),
        forall|other: Seq<char>|
            #[trigger] stands(put(s, key(user), user), other) ==> stands(s, other) || other
                == user.uuid@,
{
    let k = key(user);
    let t = put(s, k, user);
    lemma_put(s, k, user);
    lemma_find(s, k);
    let f = find(s, k);
    let at = if f >= 0 {
        f
    } else {
        s.len() as int
    };
    assert(t[at] == (k, user));
    assert forall|i: int| 0 <= i < t.len() && i != at implies #[trigger] t[i] == s[i] by {}
    assert forall|i: int| 0 <= i < t.len() implies (#[trigger] t[i]).0 == key(t[i].1)
        && !t[i].1.blank() by {
        if i != at {
            assert(t[i] == s[i]);
        }
    }
    assert forall|i: int, j: int| 0 <= i < j < t.len() implies (#[trigger] t[i]).1.uuid@ != (
    #[trigger] t[j]).1.uuid@ by {
        if i == at {
            assert(t[j] == s[j]);
        } else if j == at {
            assert(t[i] == s[i]);
        } else {
            assert(t[i] == s[i] && t[j] == s[j]);
        }
    }
    assert forall|other: Seq<char>| #[trigger] stands(t, other) implies stands(s, other) || other
        == user.uuid@ by {
        let i = choose|i: int| 0 <= i < t.len() && (#[trigger] t[i]).1.uuid@ == other;
        if i != at {
            assert(t[i] == s[i]);
        }
    }
}

/// Adding users keeps keys and uuids apart.
proof fn lemma_add_all<K>(p: Progress<K>, users: Seq<CoreUser>, key: spec_fn(CoreUser) -> K)
    requires
        well_keyed(p.users, key),
    ensures
        well_keyed(store_add_all(p, users, key).users, key),
    decreases users.len(),
{
    if users.len() > 0 {
        let last = users[users.len() - 1];
        let q = store_add_all(p, users.subrange(0, users.len() - 1), key);
        lemma_add_all(p, users.subrange(0, users.len() - 1), key);
        lemma_uuid_at(q.users, last.uuid@);
        lemma_without_uuid(q.users, key, last.uuid@);
        if !last.blank() {
            lemma_put_user(without_uuid(q.users, last.uuid@), key, last);
        }
    }
}

/// Updating users keeps keys and uuids apart.
proof fn lemma_update_all<K>(p: Progress<K>, users: Seq<CoreUser>, key: spec_fn(CoreUser) -> K)
    requires
        well_keyed(p.users, key),
    ensures
        well_keyed(store_update_all(p, users, key).users, key),
    decreases users.len(),
{
    if users.len() > 0 {
        let last = users[users.len() - 1];
        let q = store_update_all(p, users.subrange(0, users.len() - 1), key);
        lemma_update_all(p, users.subrange(0, users.len() - 1), key);
        lemma_uuid_at(q.users, last.uuid@);
        lemma_without_uuid(q.users, key, last.uuid@);
        if !last.blank() {
            lemma_put_user(without_uuid(q.users, last.uuid@), key, last);
        }
    }
}

/// Deleting uuids keeps keys and uuids apart, and none of the uuids stands.
proof fn lemma_delete_all<K>(p: Progress<K>, uuids: Seq<String>, key: spec_fn(CoreUser) -> K)
    requires
        well_keyed(p.users, key),
    ensures
        well_keyed(store_delete_all(p, uuids).users, key),
        forall|i: int|
            0 <= i < uuids.len() ==> !stands(
                store_delete_all(p, uuids).users,
                (#[trigger] uuids[i])@,
            ),
    decreases uuids.len(),
{
    if uuids.len() > 0 {
        let n = uuids.len() - 1;
        let rest = uuids.subrange(0, n);
        let q = store_delete_all(p, rest);
        lemma_delete_all(p, rest, key);
        lemma_uuid_at(q.users, uuids[n]@);
        lemma_without_uuid(q.users, key, uuids[n]@);
        let after = store_delete_all(p, uuids).users;
        assert(after == without_uuid(q.users, uuids[n]@));
        assert forall|i: int| 0 <= i < uuids.len() implies !stands(
            after,
            (#[trigger] uuids[i])@,
        ) by {
            if i < n {
                assert(rest[i] == uuids[i]);
                assert(!stands(q.users, rest[i]@));
            }
        }
    }
}

/// Whatever the rule for keys is: an incremental change keeps every user under its key and every
/// uuid at most once, and no deleted uuid stands under any key.
pub proof fn law_deleted_users_stand_nowhere<K>(
    users: Seq<(K, CoreUser)>,
    delta: CoreUserDelta,
    key: spec_fn(CoreUser) -> K,
)
    requires
        well_keyed(users, key),
    ensures
        well_keyed(store_delta(users, delta, key).users, key),
        forall|i: int|
            0 <= i < delta.deleted@.len() ==> !stands(
                store_delta(users, delta, key).users,
                (#[trigger] delta.deleted@[i])@,
            ),
{
    let added = store_add_all(unchanged(users), delta.added@, key);
    let updated = store_update_all(added, delta.updated@, key);
    lemma_add_all(unchanged(users), delta.added@, key);
    lemma_update_all(added, delta.updated@, key);
    lemma_delete_all(updated, delta.deleted@, key);
}

/// The users of a list in which no uuid occurs twice stand under their keys, each at most once.
pub proof fn law_listed_users_are_well_keyed<K>(users: Seq<CoreUser>, key: spec_fn(CoreUser) -> K)
    requires
        forall|i: int, j: int|
            0 <= i < j < users.len() ==> (#[trigger] users[i]).uuid@ != (#[trigger] users[j]).uuid@,
    ensures
        well_keyed(keyed_users(users, key), key),
        forall|uuid: Seq<char>| #[trigger]
            stands(keyed_users(users, key), uuid) ==> exists|i: int|
                0 <= i < users.len() && (#[trigger] users[i]).uuid@ == uuid,
    decreases users.len(),
{
    if users.len() > 0 {
        let n = users.len() - 1;
        let rest = users.subrange(0, n);
        let last = users[n];
        let s = keyed_users(rest, key);
        assert forall|i: int, j: int| 0 <= i < j < rest.len() implies (#[trigger] rest[i]).uuid@ != (
        #[trigger] rest[j]).uuid@ by {
            assert(rest[i] == users[i] && rest[j] == users[j]);
        }
        law_listed_users_are_well_keyed(rest, key);
        assert forall|uuid: Seq<char>| #[trigger] stands(s, uuid) implies exists|i: int|
            0 <= i < n && (#[trigger] users[i]).uuid@ == uuid by {
            let i = choose|i: int| 0 <= i < rest.len() && (#[trigger] rest[i]).uuid@ == uuid;
            assert(users[i].uuid@ == uuid);
        }
        if stands(s, last.uuid@) {
            let i = choose|i: int| 0 <= i < n && (#[trigger] users[i]).uuid@ == last.uuid@;
            assert(users[i].uuid@ != users[n].uuid@);
        }
        if !last.blank() {
            lemma_put_user(s, key, last);
        }
        assert forall|uuid: Seq<char>| #[trigger] stands(
            keyed_users(users, key),
            uuid,
        ) implies exists|i: int| 0 <= i < users.len() && (#[trigger] users[i]).uuid@ == uuid by {
            if stands(s, uuid) {
                let i = choose|i: int| 0 <= i < n && (#[trigger] users[i]).uuid@ == uuid;
                assert(users[i].uuid@ == uuid);
            } else {
                assert(users[n].uuid@ == uuid);
            }
        }
    }
}

/// A user that was deleted from a Trojan server is refused: after a change, no request is held to
/// be of a user whose uuid was deleted.
pub proof fn law_deleted_trojan_user_is_refused(
    users: Seq<(Seq<char>, CoreUser)>,
    delta: CoreUserDelta,
    input: Seq<u8>,
)
    requires
        well_keyed(users, hash_rule()),
        request(store_delta(users, delta, hash_rule()).users, arrived(input)).0 is Ok,
    ensures
        forall|i: int|
            0 <= i < delta.deleted@.len() ==> request(
                store_delta(users, delta, hash_rule()).users,
                arrived(input),
            ).0->Ok_0.user_uuid != (#[trigger] delta.deleted@[i])@,
{
    let after = store_delta(users, delta, hash_rule()).users;
    let accepted = request(after, arrived(input)).0->Ok_0;
    law_deleted_users_stand_nowhere(users, delta, hash_rule());
    law_request_is_authenticated(after, input);
    lemma_find(after, accepted.password_hash);
    let at = find(after, accepted.password_hash);
    assert(after[at].1.uuid@ == accepted.user_uuid);
    assert(stands(after, accepted.user_uuid));
}

} // verus!
