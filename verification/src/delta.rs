//! User changes applied to plain lists and to tables under arbitrary keys.

use std::sync::Arc;

use vstd::prelude::*;

use crate::order::{ranked, sort_ranked};
use crate::table::{
    cut, distinct, find, get, holds, lemma_find, lemma_mapped, mapped, put, Table, TableKey,
};
use crate::user::{
    counts, keyed_users, lemma_roster, replaced, roster, takes_every_user, tally, unchanged,
    CoreUser, CoreUserDelta, CoreUserDeltaResult, Progress, UserCell,
};

verus! {

/// The users of a list whose uuid is not blank.
pub open spec fn active_users(users: Seq<CoreUser>) -> Seq<CoreUser>
    decreases users.len(),
{
    if users.len() == 0 {
        Seq::empty()
    } else {
        let rest = active_users(users.subrange(0, users.len() - 1));
        let last = users[users.len() - 1];
        if last.blank() {
            rest
        } else {
            rest.push(last)
        }
    }
}

/// The users of a roster.
pub open spec fn users_of<K>(s: Seq<(K, CoreUser)>) -> Seq<CoreUser> {
    s.map_values(|e: (K, CoreUser)| e.1)
}

/// Adding one user under the uuid.
pub open spec fn list_add(p: Progress<Seq<char>>, user: CoreUser) -> Progress<Seq<char>> {
    if user.blank() {
        p
    } else if holds(p.users, user.uuid@) {
        Progress { users: put(p.users, user.uuid@, user), updated: p.updated + 1, ..p }
    } else {
        Progress { users: put(p.users, user.uuid@, user), added: p.added + 1, ..p }
    }
}

/// Updating one user under the uuid, where it is there.
pub open spec fn list_update(p: Progress<Seq<char>>, user: CoreUser) -> Progress<Seq<char>> {
    if user.blank() {
        p
    } else if holds(p.users, user.uuid@) {
        Progress { users: put(p.users, user.uuid@, user), updated: p.updated + 1, ..p }
    } else {
        Progress { missing_updated: p.missing_updated + 1, ..p }
    }
}

/// Deleting one uuid.
pub open spec fn list_delete(p: Progress<Seq<char>>, uuid: Seq<char>) -> Progress<Seq<char>> {
    if holds(p.users, uuid) {
        Progress { users: cut(p.users, uuid), deleted: p.deleted + 1, ..p }
    } else {
        Progress { missing_deleted: p.missing_deleted + 1, ..p }
    }
}

/// Adding users one after the other.
pub open spec fn list_add_all(p: Progress<Seq<char>>, users: Seq<CoreUser>) -> Progress<Seq<char>>
    decreases users.len(),
{
    if users.len() == 0 {
        p
    } else {
        list_add(list_add_all(p, users.subrange(0, users.len() - 1)), users[users.len() - 1])
    }
}

/// Updating users one after the other.
pub open spec fn list_update_all(
    p: Progress<Seq<char>>,
    users: Seq<CoreUser>,
) -> Progress<Seq<char>>
    decreases users.len(),
{
    if users.len() == 0 {
        p
    } else {
        list_update(list_update_all(p, users.subrange(0, users.len() - 1)), users[users.len() - 1])
    }
}

/// Deleting uuids one after the other.
pub open spec fn list_delete_all(p: Progress<Seq<char>>, uuids: Seq<String>) -> Progress<Seq<char>>
    decreases uuids.len(),
{
    if uuids.len() == 0 {
        p
    } else {
        list_delete(
            list_delete_all(p, uuids.subrange(0, uuids.len() - 1)),
            uuids[uuids.len() - 1]@,
        )
    }
}

/// An incremental change applied to users under their uuids.
pub open spec fn list_delta(
    users: Seq<(Seq<char>, CoreUser)>,
    delta: CoreUserDelta,
) -> Progress<Seq<char>> {
    list_delete_all(
        list_update_all(list_add_all(unchanged(users), delta.added@), delta.updated@),
        delta.deleted@,
    )
}

/// The list that a change of users leaves: the active users of a full list, or else those of the
/// list by their uuids, with the change applied; ordered by uuid.
pub open spec fn list_after(users: Seq<CoreUser>, delta: CoreUserDelta) -> Seq<CoreUser> {
    match delta.full {
        Some(full) => ranked(active_users(full@)),
        None => ranked(
            users_of(list_delta(keyed_users(users, |u: CoreUser| u.uuid@), delta).users),
        ),
    }
}

/// The users of a list whose uuid is not blank, ordered by uuid.
fn active_user_vec(users: &[CoreUser]) -> (r: Vec<CoreUser>)
    ensures
        r@ == ranked(active_users(users@)),
{
    let active = active_user_list(users);
    sort_ranked(active)
}

/// The users of a list whose uuid is not blank.
pub fn active_user_list(users: &[CoreUser]) -> (r: Vec<CoreUser>)
    ensures
        r@ == active_users(users@),
{
    let mut active: Vec<CoreUser> = Vec::new();
    let mut i: usize = 0;
    while i < users.len()
        invariant
            i <= users@.len(),
            active@ == active_users(users@.subrange(0, i as int)),
        decreases users.len() - i,
    {
        let ghost longer = users@.subrange(0, i + 1);
        assert(longer.subrange(0, longer.len() - 1) == users@.subrange(0, i as int));
        if !users[i].is_empty() {
            active.push(users[i].clone());
        }
        i += 1;
    }
    assert(users@.subrange(0, users@.len() as int) == users@);
    active
}

/// Applies a change to a list of users: a full list replaces it; else the users are taken by
/// their uuids (the last of several with one uuid stays), users are added, then updated, then
/// deleted. Blank users are left out, and the list comes out ordered by uuid.
pub fn apply_user_delta_to_vec(
    users: &mut Vec<CoreUser>,
    delta: &CoreUserDelta,
) -> (r: CoreUserDeltaResult)
    ensures
        final(users)@ == list_after(old(users)@, *delta),
        match delta.full {
            Some(_) => replaced(final(users)@.len(), r),
            None => tally(
                list_delta(keyed_users(old(users)@, |u: CoreUser| u.uuid@), *delta),
                r,
            ),
        },
{
    if let Some(full) = &delta.full {
        *users = active_user_vec(full.as_slice());
        let mut result = CoreUserDeltaResult::default();
        result.active_users = users.len();
        result.full_applied = true;
        return result;
    }
    let mut result = CoreUserDeltaResult::default();
    let ghost rule = |u: CoreUser| u.uuid@;
    let mut table: Table<String, CoreUser> = Table::new();
    let mut i: usize = 0;
    while i < users.len()
        invariant
            i <= users@.len(),
            rule == (|u: CoreUser| u.uuid@),
            table@ == keyed_users(users@.subrange(0, i as int), rule),
        decreases users.len() - i,
    {
        let ghost longer = users@.subrange(0, i + 1);
        assert(longer.subrange(0, longer.len() - 1) == users@.subrange(0, i as int));
        if !users[i].is_empty() {
            let old = table.insert(users[i].uuid.clone(), users[i].clone());
        }
        i += 1;
    }
    assert(users@.subrange(0, users@.len() as int) == users@);
    let ghost start = table@;
    let mut a: usize = 0;
    while a < delta.added.len()
        invariant
            a <= delta.added@.len(),
            counts(
                list_add_all(unchanged(start), delta.added@.subrange(0, a as int)),
                table@,
                result,
            ),
            !result.full_applied,
        decreases delta.added.len() - a,
    {
        let user = &delta.added[a];
        let ghost longer = delta.added@.subrange(0, a + 1);
        assert(longer.subrange(0, longer.len() - 1) == delta.added@.subrange(0, a as int));
        if !user.is_empty() {
            if table.insert(user.uuid.clone(), user.clone()).is_some() {
                result.updated = result.updated.saturating_add(1);
            } else {
                result.added = result.added.saturating_add(1);
            }
        }
        a += 1;
    }
    assert(delta.added@.subrange(0, delta.added@.len() as int) == delta.added@);
    let mut b: usize = 0;
    while b < delta.updated.len()
        invariant
            b <= delta.updated@.len(),
            counts(
                list_update_all(
                    list_add_all(unchanged(start), delta.added@),
                    delta.updated@.subrange(0, b as int),
                ),
                table@,
                result,
            ),
            !result.full_applied,
        decreases delta.updated.len() - b,
    {
        let user = &delta.updated[b];
        let ghost longer = delta.updated@.subrange(0, b + 1);
        assert(longer.subrange(0, longer.len() - 1) == delta.updated@.subrange(0, b as int));
        if !user.is_empty() {
            if table.contains_key(&user.uuid) {
                let old = table.insert(user.uuid.clone(), user.clone());
                result.updated = result.updated.saturating_add(1);
            } else {
                result.missing_updated = result.missing_updated.saturating_add(1);
            }
        }
        b += 1;
    }
    assert(delta.updated@.subrange(0, delta.updated@.len() as int) == delta.updated@);
    let ghost settled = list_update_all(list_add_all(unchanged(start), delta.added@), delta.updated@);
    let mut c: usize = 0;
    while c < delta.deleted.len()
        invariant
            c <= delta.deleted@.len(),
            settled == list_update_all(list_add_all(unchanged(start), delta.added@), delta.updated@),
            counts(
                list_delete_all(settled, delta.deleted@.subrange(0, c as int)),
                table@,
                result,
            ),
            !result.full_applied,
        decreases delta.deleted.len() - c,
    {
        let ghost longer = delta.deleted@.subrange(0, c + 1);
        assert(longer.subrange(0, longer.len() - 1) == delta.deleted@.subrange(0, c as int));
        if table.remove(&delta.deleted[c]).is_some() {
            result.deleted = result.deleted.saturating_add(1);
        } else {
            result.missing_deleted = result.missing_deleted.saturating_add(1);
        }
        c += 1;
    }
    assert(delta.deleted@.subrange(0, delta.deleted@.len() as int) == delta.deleted@);
    let mut kept: Vec<CoreUser> = Vec::new();
    let mut d: usize = 0;
    while d < table.len()
        invariant
            d <= table@.len(),
            kept@ == users_of(table@).subrange(0, d as int),
        decreases table@.len() - d,
    {
        kept.push(table.value_at(d).clone());
        d += 1;
        assert(kept@ =~= users_of(table@).subrange(0, d as int));
    }
    assert(kept@ =~= users_of(table@));
    proof {
        crate::order::law_sorting_is_a_permutation(kept@, crate::order::rank_of());
    }
    *users = sort_ranked(kept);
    result.active_users = users.len();
    result
}

/// The view of an optional key.
pub open spec fn key_view<K: TableKey>(key: Option<K>) -> Option<K::V> {
    match key {
        Some(key) => Some(key@),
        None => None,
    }
}

/// Whether every key that a function gives a user is the one of the rule.
pub open spec fn follows_rule<K: TableKey, F: Fn(&CoreUser) -> Option<K>>(
    f: F,
    rule: spec_fn(CoreUser) -> Option<K::V>,
) -> bool {
    forall|u: CoreUser, o: Option<K>| #[trigger]
        call_ensures(f, (&u,), o) ==> key_view(o) == rule(u)
}

/// Users and counts while a change is being applied, with the key of every uuid.
#[verifier::ext_equal]
pub struct KeyedProgress<K> {
    pub base: Progress<K>,
    pub keys: Seq<(Seq<char>, K)>,
}

/// The key of every uuid in a roster; the last of several keys of one uuid stays.
pub open spec fn keys_by_uuid<K>(users: Seq<(K, CoreUser)>) -> Seq<(Seq<char>, K)>
    decreases users.len(),
{
    if users.len() == 0 {
        Seq::empty()
    } else {
        let last = users[users.len() - 1];
        put(keys_by_uuid(users.subrange(0, users.len() - 1)), last.1.uuid@, last.0)
    }
}

/// The users of a list under their keys; users that are blank or have no key are left out.
pub open spec fn keyed_full<K>(
    users: Seq<CoreUser>,
    rule: spec_fn(CoreUser) -> Option<K>,
) -> Seq<(K, CoreUser)>
    decreases users.len(),
{
    if users.len() == 0 {
        Seq::empty()
    } else {
        let rest = keyed_full(users.subrange(0, users.len() - 1), rule);
        let last = users[users.len() - 1];
        if last.blank() || rule(last) is None {
            rest
        } else {
            put(rest, rule(last)->0, last)
        }
    }
}

/// Adding one user: the entry under the key that the uuid had is removed first.
pub open spec fn keyed_add<K>(
    p: KeyedProgress<K>,
    user: CoreUser,
    key: Option<K>,
) -> KeyedProgress<K> {
    if user.blank() || key is None {
        p
    } else {
        match get(p.keys, user.uuid@) {
            Some(old) => KeyedProgress {
                base: Progress {
                    users: put(cut(p.base.users, old), key->0, user),
                    updated: p.base.updated + 1,
                    ..p.base
                },
                keys: put(p.keys, user.uuid@, key->0),
            },
            None => KeyedProgress {
                base: Progress {
                    users: put(p.base.users, key->0, user),
                    added: p.base.added + 1,
                    ..p.base
                },
                keys: put(p.keys, user.uuid@, key->0),
            },
        }
    }
}

/// Updating one user: only where the uuid has a key, and only to a key.
pub open spec fn keyed_update<K>(
    p: KeyedProgress<K>,
    user: CoreUser,
    key: Option<K>,
) -> KeyedProgress<K> {
    if user.blank() {
        p
    } else if key is None || get(p.keys, user.uuid@) is None {
        KeyedProgress {
            base: Progress { missing_updated: p.base.missing_updated + 1, ..p.base },
            ..p
        }
    } else {
        KeyedProgress {
            base: Progress {
                users: put(cut(p.base.users, get(p.keys, user.uuid@)->0), key->0, user),
                updated: p.base.updated + 1,
                ..p.base
            },
            keys: put(p.keys, user.uuid@, key->0),
        }
    }
}

/// Deleting one uuid, and the entry under its key.
pub open spec fn keyed_delete<K>(p: KeyedProgress<K>, uuid: Seq<char>) -> KeyedProgress<K> {
    match get(p.keys, uuid) {
        Some(key) => if holds(p.base.users, key) {
            KeyedProgress {
                base: Progress {
                    users: cut(p.base.users, key),
                    deleted: p.base.deleted + 1,
                    ..p.base
                },
                keys: cut(p.keys, uuid),
            }
        } else {
            KeyedProgress {
                base: Progress { missing_deleted: p.base.missing_deleted + 1, ..p.base },
                keys: cut(p.keys, uuid),
            }
        },
        None => KeyedProgress {
            base: Progress { missing_deleted: p.base.missing_deleted + 1, ..p.base },
            ..p
        },
    }
}

/// Adding users one after the other.
pub open spec fn keyed_add_all<K>(
    p: KeyedProgress<K>,
    users: Seq<CoreUser>,
    rule: spec_fn(CoreUser) -> Option<K>,
) -> KeyedProgress<K>
    decreases users.len(),
{
    if users.len() == 0 {
        p
    } else {
        let last = users[users.len() - 1];
        keyed_add(keyed_add_all(p, users.subrange(0, users.len() - 1), rule), last, rule(last))
    }
}

/// Updating users one after the other.
pub open spec fn keyed_update_all<K>(
    p: KeyedProgress<K>,
    users: Seq<CoreUser>,
    rule: spec_fn(CoreUser) -> Option<K>,
) -> KeyedProgress<K>
    decreases users.len(),
{
    if users.len() == 0 {
        p
    } else {
        let last = users[users.len() - 1];
        keyed_update(
            keyed_update_all(p, users.subrange(0, users.len() - 1), rule),
            last,
            rule(last),
        )
    }
}

/// Deleting uuids one after the other.
pub open spec fn keyed_delete_all<K>(p: KeyedProgress<K>, uuids: Seq<String>) -> KeyedProgress<K>
    decreases uuids.len(),
{
    if uuids.len() == 0 {
        p
    } else {
        keyed_delete(
            keyed_delete_all(p, uuids.subrange(0, uuids.len() - 1)),
            uuids[uuids.len() - 1]@,
        )
    }
}

/// An incremental change applied to users under keys.
pub open spec fn keyed_delta<K>(
    users: Seq<(K, CoreUser)>,
    delta: CoreUserDelta,
    rule: spec_fn(CoreUser) -> Option<K>,
) -> KeyedProgress<K> {
    keyed_delete_all(
        keyed_update_all(
            keyed_add_all(
                KeyedProgress { base: unchanged(users), keys: keys_by_uuid(users) },
                delta.added@,
                rule,
            ),
            delta.updated@,
            rule,
        ),
        delta.deleted@,
    )
}

/// What applying a change to users under keys leaves, and what it reports.
pub open spec fn keyed_outcome<K>(
    before: Seq<(K, CoreUser)>,
    after: Seq<(K, CoreUser)>,
    delta: CoreUserDelta,
    rule: spec_fn(CoreUser) -> Option<K>,
    r: CoreUserDeltaResult,
) -> bool {
    match delta.full {
        Some(full) => {
            &&& after == keyed_full(full@, rule)
            &&& replaced(after.len(), r)
        },
        None => {
            &&& after == keyed_delta(before, delta, rule).base.users
            &&& tally(keyed_delta(before, delta, rule).base, r)
        },
    }
}

/// The views of the keys that are recorded for uuids.
spec fn key_views<K: TableKey>(s: Seq<(Seq<char>, K)>) -> Seq<(Seq<char>, K::V)> {
    mapped(s, |k: K| k@)
}

/// The keys that a table records for uuids.
spec fn recorded<K: TableKey>(keys: Table<String, K>) -> Seq<(Seq<char>, K::V)> {
    key_views(keys@)
}

/// A table of keys behaves as the record of their views.
proof fn lemma_recorded<K: TableKey>(s: Seq<(Seq<char>, K)>)
    ensures
        ({
            let t = key_views(s);
            &&& forall|uuid: Seq<char>| #[trigger] find(t, uuid) == find(s, uuid)
            &&& forall|uuid: Seq<char>| key_view(#[trigger] get(s, uuid)) == get(t, uuid)
            &&& forall|uuid: Seq<char>, key: K| #[trigger]
                key_views(put(s, uuid, key)) == put(t, uuid, key@)
            &&& forall|uuid: Seq<char>| #[trigger]
                key_views(cut(s, uuid)) == cut(t, uuid)
        }),
{
    lemma_mapped(s, |k: K| k@);
}

/// The key of every uuid in a table of users.
fn record_keys<K: TableKey, C: UserCell>(users: &Table<K, C>) -> (r: Table<String, K>)
    ensures
        recorded(r) == keys_by_uuid(roster(users@)),
{
    let mut keys: Table<String, K> = Table::new();
    let ghost all = roster(users@);
    let mut i: usize = 0;
    assert(recorded(keys) =~= Seq::<(Seq<char>, K::V)>::empty());
    while i < users.len()
        invariant
            i <= users@.len(),
            all == roster(users@),
            recorded(keys) == keys_by_uuid(all.subrange(0, i as int)),
        decreases users@.len() - i,
    {
        proof {
            let longer = all.subrange(0, i + 1);
            assert(longer.subrange(0, longer.len() - 1) == all.subrange(0, i as int));
            lemma_recorded(keys@);
        }
        let uuid = users.value_at(i).user().uuid.clone();
        let old = keys.insert(uuid, users.key_at(i).copy_key());
        i += 1;
    }
    assert(all.subrange(0, all.len() as int) == all);
    keys
}

/// Adds one user under a key.
fn add_under_key<K: TableKey, C: UserCell>(
    users: &mut Table<K, C>,
    keys: &mut Table<String, K>,
    user: &CoreUser,
    key: K,
) -> (known: bool)
    ensures
        known == holds(recorded(*old(keys)), user.uuid@),
        recorded(*final(keys)) == put(recorded(*old(keys)), user.uuid@, key@),
        roster(final(users)@) == put(
            match get(recorded(*old(keys)), user.uuid@) {
                Some(k) => cut(roster(old(users)@), k),
                None => roster(old(users)@),
            },
            key@,
            *user,
        ),
        distinct(old(users)@) ==> distinct(final(users)@),
{
    proof {
        lemma_recorded(keys@);
        lemma_roster(users@);
        lemma_find(keys@, user.uuid@);
    }
    let known = match keys.insert(user.uuid.clone(), key.copy_key()) {
        Some(old_key) => {
            let removed = users.remove(&old_key);
            true
        },
        None => false,
    };
    proof {
        lemma_roster(users@);
    }
    let old = users.insert(key, C::hold(user.clone()));
    known
}

/// Applies a change to a table of users under keys.
fn apply_to_table<K: TableKey, C: UserCell, F: Fn(&CoreUser) -> Option<K>>(
    users: &mut Table<K, C>,
    delta: &CoreUserDelta,
    key: F,
) -> (r: CoreUserDeltaResult)
    requires
        old(users).wf(),
        takes_every_user(key),
    ensures
        final(users).wf(),
        forall|rule: spec_fn(CoreUser) -> Option<K::V>| #[trigger]
            follows_rule(key, rule) ==> keyed_outcome(
                roster(old(users)@),
                roster(final(users)@),
                *delta,
                rule,
                r,
            ),
{
    let mut result = CoreUserDeltaResult::default();
    if let Some(full) = &delta.full {
        users.clear();
        let mut i: usize = 0;
        assert(roster(users@) =~= Seq::<(K::V, CoreUser)>::empty());
        while i < full.len()
            invariant
                i <= full@.len(),
                takes_every_user(key),
                users.wf(),
                forall|rule: spec_fn(CoreUser) -> Option<K::V>| #[trigger]
                    follows_rule(key, rule) ==> roster(users@) == keyed_full(
                        full@.subrange(0, i as int),
                        rule,
                    ),
            decreases full.len() - i,
        {
            let ghost longer = full@.subrange(0, i + 1);
            assert(longer.subrange(0, longer.len() - 1) == full@.subrange(0, i as int));
            if !full[i].is_empty() {
                if let Some(k) = key(&full[i]) {
                    proof {
                        lemma_roster(users@);
                    }
                    let old = users.insert(k, C::hold(full[i].clone()));
                }
            }
            i += 1;
        }
        assert(full@.subrange(0, full@.len() as int) == full@);
        proof {
            lemma_roster(users@);
        }
        result.active_users = users.len();
        result.full_applied = true;
        return result;
    }
    let ghost start = roster(users@);
    let ghost begin = KeyedProgress { base: unchanged(start), keys: keys_by_uuid(start) };
    let mut keys = record_keys(users);
    let mut a: usize = 0;
    while a < delta.added.len()
        invariant
            a <= delta.added@.len(),
            takes_every_user(key),
            users.wf(),
            forall|rule: spec_fn(CoreUser) -> Option<K::V>| #[trigger]
                follows_rule(key, rule) ==> {
                    let p = keyed_add_all(begin, delta.added@.subrange(0, a as int), rule);
                    counts(p.base, roster(users@), result) && recorded(keys) == p.keys
                },
            !result.full_applied,
        decreases delta.added.len() - a,
    {
        let user = &delta.added[a];
        let ghost longer = delta.added@.subrange(0, a + 1);
        assert(longer.subrange(0, longer.len() - 1) == delta.added@.subrange(0, a as int));
        if !user.is_empty() {
            if let Some(k) = key(user) {
                if add_under_key(users, &mut keys, user, k) {
                    result.updated = result.updated.saturating_add(1);
                } else {
                    result.added = result.added.saturating_add(1);
                }
            }
        }
        a += 1;
    }
    assert(delta.added@.subrange(0, delta.added@.len() as int) == delta.added@);
    let mut b: usize = 0;
    while b < delta.updated.len()
        invariant
            b <= delta.updated@.len(),
            takes_every_user(key),
            users.wf(),
            forall|rule: spec_fn(CoreUser) -> Option<K::V>| #[trigger]
                follows_rule(key, rule) ==> {
                    let p = keyed_update_all(
                        keyed_add_all(begin, delta.added@, rule),
                        delta.updated@.subrange(0, b as int),
                        rule,
                    );
                    counts(p.base, roster(users@), result) && recorded(keys) == p.keys
                },
            !result.full_applied,
        decreases delta.updated.len() - b,
    {
        let user = &delta.updated[b];
        let ghost longer = delta.updated@.subrange(0, b + 1);
        assert(longer.subrange(0, longer.len() - 1) == delta.updated@.subrange(0, b as int));
        if !user.is_empty() {
            match key(user) {
                Some(k) => {
                    proof {
                        lemma_recorded(keys@);
                    }
                    if keys.contains_key(&user.uuid) {
                        let known = add_under_key(users, &mut keys, user, k);
                        result.updated = result.updated.saturating_add(1);
                    } else {
                        result.missing_updated = result.missing_updated.saturating_add(1);
                    }
                },
                None => {
                    result.missing_updated = result.missing_updated.saturating_add(1);
                },
            }
        }
        b += 1;
    }
    assert(delta.updated@.subrange(0, delta.updated@.len() as int) == delta.updated@);
    let mut c: usize = 0;
    while c < delta.deleted.len()
        invariant
            c <= delta.deleted@.len(),
            users.wf(),
            forall|rule: spec_fn(CoreUser) -> Option<K::V>| #[trigger]
                follows_rule(key, rule) ==> {
                    let p = keyed_delete_all(
                        keyed_update_all(
                            keyed_add_all(begin, delta.added@, rule),
                            delta.updated@,
                            rule,
                        ),
                        delta.deleted@.subrange(0, c as int),
                    );
                    counts(p.base, roster(users@), result) && recorded(keys) == p.keys
                },
            !result.full_applied,
        decreases delta.deleted.len() - c,
    {
        let ghost longer = delta.deleted@.subrange(0, c + 1);
        assert(longer.subrange(0, longer.len() - 1) == delta.deleted@.subrange(0, c as int));
        proof {
            lemma_recorded(keys@);
            lemma_roster(users@);
            lemma_find(keys@, delta.deleted@[c as int]@);
        }
        match keys.remove(&delta.deleted[c]) {
            Some(k) => {
                if users.remove(&k).is_some() {
                    result.deleted = result.deleted.saturating_add(1);
                } else {
                    result.missing_deleted = result.missing_deleted.saturating_add(1);
                }
            },
            None => {
                result.missing_deleted = result.missing_deleted.saturating_add(1);
            },
        }
        c += 1;
    }
    assert(delta.deleted@.subrange(0, delta.deleted@.len() as int) == delta.deleted@);
    proof {
        lemma_roster(users@);
    }
    result.active_users = users.len();
    result
}

/// Applies a change to users under keys: a full list replaces all; else users are added, then
/// updated, then deleted, each found under the key that was recorded for its uuid.
pub fn apply_user_delta_to_keyed_map<K: TableKey, F: Fn(&CoreUser) -> Option<K>>(
    users: &mut Table<K, CoreUser>,
    delta: &CoreUserDelta,
    key: F,
) -> (r: CoreUserDeltaResult)
    requires
        old(users).wf(),
        takes_every_user(key),
    ensures
        final(users).wf(),
        forall|rule: spec_fn(CoreUser) -> Option<K::V>| #[trigger]
            follows_rule(key, rule) ==> keyed_outcome(
                roster(old(users)@),
                roster(final(users)@),
                *delta,
                rule,
                r,
            ),
{
    apply_to_table(users, delta, key)
}

/// The same for users that are shared.
pub fn apply_user_delta_to_keyed_arc_map<K: TableKey, F: Fn(&CoreUser) -> Option<K>>(
    users: &mut Table<K, Arc<CoreUser>>,
    delta: &CoreUserDelta,
    key: F,
) -> (r: CoreUserDeltaResult)
    requires
        old(users).wf(),
        takes_every_user(key),
    ensures
        final(users).wf(),
        forall|rule: spec_fn(CoreUser) -> Option<K::V>| #[trigger]
            follows_rule(key, rule) ==> keyed_outcome(
                roster(old(users)@),
                roster(final(users)@),
                *delta,
                rule,
                r,
            ),
{
    apply_to_table(users, delta, key)
}

} // verus!
