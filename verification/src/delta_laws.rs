//! What a change of users leaves of every uuid, whatever the users are kept under.

use vstd::prelude::*;

use crate::delta::{
    list_add_all, list_after, list_delete_all, list_delta, list_update_all, users_of,
};
use crate::order::{is_sorted_by, lemma_rank_total, rank_less, rank_of, ranked};
use crate::table::{
    distinct, find, get, lemma_cut, lemma_find, lemma_put,
};
use crate::user::{keyed_users, unchanged, CoreUser, CoreUserDelta, Progress};
use crate::user_laws::{
    law_list_delta, law_list_is_ordered_and_unique, law_users_stand_under_their_uuids, uuid_keyed,
};

verus! {

/// The last user of a list with the uuid; blank users do not count.
pub open spec fn last_named(users: Seq<CoreUser>, uuid: Seq<char>) -> Option<CoreUser>
    decreases users.len(),
{
    if users.len() == 0 {
        None
    } else {
        let last = users[users.len() - 1];
        if !last.blank() && last.uuid@ == uuid {
            Some(last)
        } else {
            last_named(users.subrange(0, users.len() - 1), uuid)
        }
    }
}

/// Whether a list has a user with the uuid that is not blank.
pub open spec fn names(users: Seq<CoreUser>, uuid: Seq<char>) -> bool {
    exists|i: int|
        0 <= i < users.len() && !(#[trigger] users[i]).blank() && users[i].uuid@ == uuid
}

/// Whether a list of uuids has the uuid.
pub open spec fn listed(uuids: Seq<String>, uuid: Seq<char>) -> bool {
    exists|i: int| 0 <= i < uuids.len() && (#[trigger] uuids[i])@ == uuid
}

/// The user that a uuid has after an incremental change, by the one it had before. A deleted uuid
/// has none, nor has one that was neither there nor added. Any other has the user that updated it
/// last, or else the one that was added last, or else the one it had.
pub open spec fn user_after(
    before: Option<CoreUser>,
    delta: CoreUserDelta,
    uuid: Seq<char>,
) -> Option<CoreUser> {
    let added = last_named(delta.added@, uuid);
    let updated = last_named(delta.updated@, uuid);
    if listed(delta.deleted@, uuid) || (before is None && added is None) {
        None
    } else if updated is Some {
        updated
    } else if added is Some {
        added
    } else {
        before
    }
}

/// What the last user with a uuid is.
pub proof fn lemma_last_named(users: Seq<CoreUser>, uuid: Seq<char>)
    ensures
        last_named(users, uuid) is Some <==> names(users, uuid),
        last_named(users, uuid) matches Some(u) ==> users.contains(u) && u.uuid@ == uuid
            && !u.blank(),
    decreases users.len(),
{
    if users.len() > 0 {
        let init = users.subrange(0, users.len() - 1);
        let last = users[users.len() - 1];
        lemma_last_named(init, uuid);
        if names(init, uuid) {
            let i = choose|i: int|
                0 <= i < init.len() && !(#[trigger] init[i]).blank() && init[i].uuid@ == uuid;
            assert(users[i] == init[i]);
        }
        if names(users, uuid) && !(!last.blank() && last.uuid@ == uuid) {
            let i = choose|i: int|
                0 <= i < users.len() && !(#[trigger] users[i]).blank() && users[i].uuid@ == uuid;
            assert(init[i] == users[i]);
        }
        if let Some(u) = last_named(init, uuid) {
            let i = choose|i: int| 0 <= i < init.len() && init[i] == u;
            assert(users[i] == u);
        }
    }
}

/// What adding leaves of a uuid.
proof fn lemma_added(p: Progress<Seq<char>>, users: Seq<CoreUser>, uuid: Seq<char>)
    requires
        distinct(p.users),
    ensures
        distinct(list_add_all(p, users).users),
        get(list_add_all(p, users).users, uuid) == (match last_named(users, uuid) {
            Some(u) => Some(u),
            None => get(p.users, uuid),
        }),
    decreases users.len(),
{
    if users.len() > 0 {
        let init = users.subrange(0, users.len() - 1);
        let last = users[users.len() - 1];
        lemma_added(p, init, uuid);
        lemma_put(list_add_all(p, init).users, last.uuid@, last);
    }
}

/// What updating leaves of a uuid.
proof fn lemma_updated(p: Progress<Seq<char>>, users: Seq<CoreUser>, uuid: Seq<char>)
    requires
        distinct(p.users),
    ensures
        distinct(list_update_all(p, users).users),
        get(list_update_all(p, users).users, uuid) == (if get(p.users, uuid) is None {
            None
        } else {
            match last_named(users, uuid) {
                Some(u) => Some(u),
                None => get(p.users, uuid),
            }
        }),
    decreases users.len(),
{
    if users.len() > 0 {
        let init = users.subrange(0, users.len() - 1);
        let last = users[users.len() - 1];
        lemma_updated(p, init, uuid);
        lemma_put(list_update_all(p, init).users, last.uuid@, last);
    }
}

/// What deleting leaves of a uuid.
proof fn lemma_deleted(p: Progress<Seq<char>>, uuids: Seq<String>, uuid: Seq<char>)
    requires
        distinct(p.users),
    ensures
        distinct(list_delete_all(p, uuids).users),
        get(list_delete_all(p, uuids).users, uuid) == (if listed(uuids, uuid) {
            None
        } else {
            get(p.users, uuid)
        }),
    decreases uuids.len(),
{
    if uuids.len() > 0 {
        let init = uuids.subrange(0, uuids.len() - 1);
        let last = uuids[uuids.len() - 1];
        lemma_deleted(p, init, uuid);
        lemma_cut(list_delete_all(p, init).users, last@);
        if listed(init, uuid) {
            let i = choose|i: int| 0 <= i < init.len() && (#[trigger] init[i])@ == uuid;
            assert(uuids[i] == init[i]);
        }
        if listed(uuids, uuid) && last@ != uuid {
            let i = choose|i: int| 0 <= i < uuids.len() && (#[trigger] uuids[i])@ == uuid;
            assert(init[i] == uuids[i]);
        }
    }
}

/// What an incremental change leaves of every uuid.
pub proof fn law_change_of_one_uuid(
    users: Seq<(Seq<char>, CoreUser)>,
    delta: CoreUserDelta,
    uuid: Seq<char>,
)
    requires
        distinct(users),
    ensures
        distinct(list_delta(users, delta).users),
        get(list_delta(users, delta).users, uuid) == user_after(get(users, uuid), delta, uuid),
{
    let p = unchanged(users);
    let a = list_add_all(p, delta.added@);
    let b = list_update_all(a, delta.updated@);
    lemma_added(p, delta.added@, uuid);
    lemma_updated(a, delta.updated@, uuid);
    lemma_deleted(b, delta.deleted@, uuid);
}

/// Two lists in strict order that hold the same values are the same.
proof fn lemma_same_order(a: Seq<CoreUser>, b: Seq<CoreUser>)
    requires
        is_sorted_by(a, rank_of()),
        is_sorted_by(b, rank_of()),
        forall|i: int, j: int|
            0 <= i < j < a.len() ==> (#[trigger] a[i]).uuid@ != (#[trigger] a[j]).uuid@,
        forall|i: int, j: int|
            0 <= i < j < b.len() ==> (#[trigger] b[i]).uuid@ != (#[trigger] b[j]).uuid@,
        forall|u: CoreUser| #[trigger] a.contains(u) <==> b.contains(u),
    ensures
        a == b,
    decreases a.len(),
{
    if a.len() == 0 {
        if b.len() > 0 {
            assert(b.contains(b[0]));
            assert(a.contains(b[0]));
        }
        assert(a =~= b);
    } else {
        assert(a.contains(a[0]));
        assert(b.len() > 0);
        let x = a.last();
        let y = b.last();
        assert(a.contains(x) && b.contains(y));
        assert(b.contains(x) && a.contains(y));
        let i = choose|i: int| 0 <= i < b.len() && b[i] == x;
        let j = choose|j: int| 0 <= j < a.len() && a[j] == y;
        let r = rank_of::<CoreUser>();
        if x != y {
            assert(b[i] == x && b[b.len() - 1] == y);
            assert(a[j] == y && a[a.len() - 1] == x);
            assert(!rank_less(r(y), r(x)));
            assert(!rank_less(r(x), r(y)));
            lemma_rank_total(r(x), r(y));
            assert(r(x) == seq![x.uuid@] && r(y) == seq![y.uuid@]);
            assert(seq![x.uuid@][0] == seq![y.uuid@][0]);
            assert(a[j].uuid@ == a[a.len() - 1].uuid@);
        }
        let c = a.drop_last();
        let d = b.drop_last();
        assert forall|u: CoreUser| #[trigger] c.contains(u) <==> d.contains(u) by {
            if c.contains(u) {
                let k = choose|k: int| 0 <= k < c.len() && c[k] == u;
                assert(a[k] == u);
                assert(a.contains(u));
                assert(b.contains(u));
                let m = choose|m: int| 0 <= m < b.len() && b[m] == u;
                assert(a[k].uuid@ != a[a.len() - 1].uuid@);
                assert(d[m] == u);
            }
            if d.contains(u) {
                let k = choose|k: int| 0 <= k < d.len() && d[k] == u;
                assert(b[k] == u);
                assert(b.contains(u));
                assert(a.contains(u));
                let m = choose|m: int| 0 <= m < a.len() && a[m] == u;
                assert(b[k].uuid@ != b[b.len() - 1].uuid@);
                assert(c[m] == u);
            }
        }
        assert forall|i: int, j: int| 0 <= i < j < c.len() implies (#[trigger] c[i]).uuid@ != (
        #[trigger] c[j]).uuid@ by {
            assert(c[i] == a[i] && c[j] == a[j]);
        }
        assert forall|i: int, j: int| 0 <= i < j < d.len() implies (#[trigger] d[i]).uuid@ != (
        #[trigger] d[j]).uuid@ by {
            assert(d[i] == b[i] && d[j] == b[j]);
        }
        lemma_same_order(c, d);
        assert(a =~= c.push(x));
        assert(b =~= d.push(y));
    }
}

/// A list that is taken by its uuids has of each uuid the last user with it.
proof fn lemma_keyed_users(users: Seq<CoreUser>, uuid: Seq<char>)
    ensures
        get(keyed_users(users, |u: CoreUser| u.uuid@), uuid) == last_named(users, uuid),
    decreases users.len(),
{
    let rule = |u: CoreUser| u.uuid@;
    if users.len() > 0 {
        let init = users.subrange(0, users.len() - 1);
        let last = users[users.len() - 1];
        lemma_keyed_users(init, uuid);
        lemma_put(keyed_users(init, rule), last.uuid@, last);
    }
}

/// The ordered list of users under their uuids, taken by its uuids again, has the same user of
/// each uuid.
proof fn lemma_list_taken_again(s: Seq<(Seq<char>, CoreUser)>, uuid: Seq<char>)
    requires
        uuid_keyed(s),
    ensures
        get(keyed_users(ranked(users_of(s)), |u: CoreUser| u.uuid@), uuid) == get(s, uuid),
{
    let list = ranked(users_of(s));
    law_list_is_ordered_and_unique(s);
    lemma_keyed_users(list, uuid);
    lemma_last_named(list, uuid);
    lemma_find(s, uuid);
    if let Some(u) = get(s, uuid) {
        let f = find(s, uuid);
        assert(s[f].0 == s[f].1.uuid@);
        assert(list.contains(u));
        let i = choose|i: int| 0 <= i < list.len() && list[i] == u;
        assert(!list[i].blank() && list[i].uuid@ == uuid);
        assert(names(list, uuid));
    }
}

/// The same change applied twice leaves what it leaves applied once.
pub proof fn law_same_change_twice(users: Seq<CoreUser>, delta: CoreUserDelta)
    ensures
        list_after(list_after(users, delta), delta) == list_after(users, delta),
{
    if delta.full is None {
        let rule = |u: CoreUser| u.uuid@;
        let s = keyed_users(users, rule);
        let once = list_delta(s, delta).users;
        let list = ranked(users_of(once));
        let t = keyed_users(list, rule);
        let twice = list_delta(t, delta).users;
        law_users_stand_under_their_uuids(users);
        law_users_stand_under_their_uuids(list);
        law_list_delta(s, delta);
        law_list_delta(t, delta);
        assert forall|uuid: Seq<char>| #[trigger] get(once, uuid) == get(twice, uuid) by {
            law_change_of_one_uuid(s, delta, uuid);
            law_change_of_one_uuid(t, delta, uuid);
            lemma_list_taken_again(once, uuid);
        }
        law_list_is_ordered_and_unique(once);
        law_list_is_ordered_and_unique(twice);
        lemma_same_order(list, ranked(users_of(twice)));
    }
}

} // verus!
