//! Users of a node, and the application of incremental and full user updates.

use std::sync::Arc;

use vstd::prelude::*;

pub use crate::delta::{
    apply_user_delta_to_keyed_arc_map, apply_user_delta_to_keyed_map, apply_user_delta_to_vec,
};
use crate::numeral::{decimal, decimal_text};
use crate::order::{lemma_single_rank, ranked, sort_ranked, text_before, Ranked};
use crate::table::{
    cut, distinct, find, get, holds, lemma_find, lemma_find_at, lemma_find_none, lemma_mapped,
    mapped, put, Table, TableKey,
};
use crate::text::{trim, trimmed};

verus! {

/// A user of the node.
#[derive(Debug, PartialEq, Eq)]
pub struct CoreUser {
    pub id: u64,
    pub uuid: String,
    pub password: Option<String>,
    pub email: Option<String>,
    pub speed_limit: u64,
    pub device_limit: u32,
}

impl Clone for CoreUser {
    fn clone(&self) -> (r: CoreUser)
        ensures
            r == *self,
    {
        CoreUser {
            id: self.id,
            uuid: self.uuid.clone(),
            password: self.password.clone(),
            email: self.email.clone(),
            speed_limit: self.speed_limit,
            device_limit: self.device_limit,
        }
    }
}

/// A change of the users of one node: a full list, or additions, updates and deletions.
#[derive(Debug, PartialEq, Eq)]
pub struct CoreUserDelta {
    pub added: Vec<CoreUser>,
    pub updated: Vec<CoreUser>,
    pub deleted: Vec<String>,
    pub full: Option<Vec<CoreUser>>,
    pub base_revision: Option<String>,
    pub revision: Option<String>,
}

impl Default for CoreUserDelta {
    fn default() -> (r: CoreUserDelta)
        ensures
            r.added@.len() == 0,
            r.updated@.len() == 0,
            r.deleted@.len() == 0,
            r.full is None,
            r.base_revision is None,
            r.revision is None,
    {
        CoreUserDelta {
            added: Vec::new(),
            updated: Vec::new(),
            deleted: Vec::new(),
            full: None,
            base_revision: None,
            revision: None,
        }
    }
}

/// What applying a change did.
#[derive(Clone, Copy, Debug, PartialEq, Eq)]
pub struct CoreUserDeltaResult {
    pub added: usize,
    pub updated: usize,
    pub deleted: usize,
    pub missing_updated: usize,
    pub missing_deleted: usize,
    pub active_users: usize,
    pub full_applied: bool,
}

impl Default for CoreUserDeltaResult {
    fn default() -> (r: CoreUserDeltaResult)
        ensures
            r == (CoreUserDeltaResult {
                added: 0,
                updated: 0,
                deleted: 0,
                missing_updated: 0,
                missing_deleted: 0,
                active_users: 0,
                full_applied: false,
            }),
    {
        CoreUserDeltaResult {
            added: 0,
            updated: 0,
            deleted: 0,
            missing_updated: 0,
            missing_deleted: 0,
            active_users: 0,
            full_applied: false,
        }
    }
}

impl CoreUser {
    /// The password, or the uuid of a user without one.
    pub open spec fn credential_text(&self) -> Seq<char> {
        match self.password {
            Some(password) => password@,
            None => self.uuid@,
        }
    }

    /// Whether the uuid is nothing but white space.
    pub open spec fn blank(&self) -> bool {
        trim(self.uuid@).len() == 0
    }

    /// The password, or the uuid of a user without one.
    pub fn credential(&self) -> (r: &str)
        ensures
            r@ == self.credential_text(),
    {
        match &self.password {
            Some(password) => password.as_str(),
            None => self.uuid.as_str(),
        }
    }

    /// The node tag and the uuid with a bar between them.
    pub fn traffic_key(&self, node_tag: &str) -> (r: String)
        ensures
            r@ == node_tag@.push('|') + self.uuid@,
    {
        let mut key = node_tag.to_owned();
        key.push('|');
        key.append(self.uuid.as_str());
        key
    }

    /// Whether the uuid is nothing but white space.
    pub fn is_empty(&self) -> (r: bool)
        ensures
            r == self.blank(),
    {
        trimmed(self.uuid.as_str()).as_str().is_empty()
    }
}

impl Ranked for CoreUser {
    open spec fn rank(&self) -> Seq<Seq<char>> {
        seq![self.uuid@]
    }

    fn before(&self, other: &CoreUser) -> (r: bool) {
        proof {
            lemma_single_rank(self.uuid@, other.uuid@);
        }
        text_before(self.uuid.as_str(), other.uuid.as_str())
    }
}

/// A place that holds a user.
pub trait UserCell: Sized {
    /// The user in it.
    spec fn held(&self) -> CoreUser;

    /// A place with the user in it.
    fn hold(user: CoreUser) -> (r: Self)
        ensures
            r.held() == user,
    ;

    /// The user in it.
    fn user(&self) -> (r: &CoreUser)
        ensures
            *r == self.held(),
    ;
}

impl UserCell for CoreUser {
    open spec fn held(&self) -> CoreUser {
        *self
    }

    fn hold(user: CoreUser) -> (r: CoreUser) {
        user
    }

    fn user(&self) -> (r: &CoreUser) {
        self
    }
}

impl UserCell for Arc<CoreUser> {
    open spec fn held(&self) -> CoreUser {
        **self
    }

    fn hold(user: CoreUser) -> (r: Arc<CoreUser>) {
        Arc::new(user)
    }

    fn user(&self) -> (r: &CoreUser) {
        &**self
    }
}

/// The users in the places of a table.
pub open spec fn held_users<C: UserCell>() -> spec_fn(C) -> CoreUser {
    |c: C| c.held()
}

/// The keys and users of a table whose values hold users.
pub open spec fn roster<K, C: UserCell>(s: Seq<(K, C)>) -> Seq<(K, CoreUser)> {
    mapped(s, held_users())
}

/// The uuids and keys of a roster.
pub open spec fn by_uuid<K>(s: Seq<(K, CoreUser)>) -> Seq<(Seq<char>, K)> {
    s.map_values(|e: (K, CoreUser)| (e.1.uuid@, e.0))
}

/// The position of the first user with the uuid, or -1.
pub open spec fn uuid_at<K>(s: Seq<(K, CoreUser)>, uuid: Seq<char>) -> int {
    find(by_uuid(s), uuid)
}

/// The roster without the first user that has the uuid.
pub open spec fn without_uuid<K>(s: Seq<(K, CoreUser)>, uuid: Seq<char>) -> Seq<(K, CoreUser)> {
    if uuid_at(s, uuid) >= 0 {
        s.remove(uuid_at(s, uuid))
    } else {
        s
    }
}

/// Keys are found in a table where they are found in its roster, and changes carry over.
pub proof fn lemma_roster<K, C: UserCell>(s: Seq<(K, C)>)
    ensures
        roster(s).len() == s.len(),
        forall|key: K| #[trigger] find(roster(s), key) == find(s, key),
        forall|key: K, cell: C|
            #[trigger] roster(put(s, key, cell)) == put(roster(s), key, cell.held()),
        forall|key: K| #[trigger] roster(cut(s, key)) == cut(roster(s), key),
        forall|i: int| 0 <= i < s.len() ==> #[trigger] roster(s.remove(i)) == roster(s).remove(i),
        distinct(s) == distinct(roster(s)),
{
    lemma_mapped(s, held_users::<C>());
}

/// Users and counts while a change is being applied.
#[verifier::ext_equal]
pub struct Progress<K> {
    pub users: Seq<(K, CoreUser)>,
    pub added: nat,
    pub updated: nat,
    pub deleted: nat,
    pub missing_updated: nat,
    pub missing_deleted: nat,
}

/// Nothing applied yet.
pub open spec fn unchanged<K>(users: Seq<(K, CoreUser)>) -> Progress<K> {
    Progress {
        users,
        added: 0,
        updated: 0,
        deleted: 0,
        missing_updated: 0,
        missing_deleted: 0,
    }
}

/// A count as it is reported: the largest number where it is larger than that.
pub open spec fn count_of(n: nat) -> usize {
    if n <= usize::MAX {
        n as usize
    } else {
        usize::MAX
    }
}

/// The counts of a finished change.
pub open spec fn tally<K>(p: Progress<K>, r: CoreUserDeltaResult) -> bool {
    &&& r.added == count_of(p.added)
    &&& r.updated == count_of(p.updated)
    &&& r.deleted == count_of(p.deleted)
    &&& r.missing_updated == count_of(p.missing_updated)
    &&& r.missing_deleted == count_of(p.missing_deleted)
    &&& r.active_users == p.users.len()
    &&& !r.full_applied
}

/// The result of a full replacement.
pub open spec fn replaced(active: nat, r: CoreUserDeltaResult) -> bool {
    &&& r.added == 0
    &&& r.updated == 0
    &&& r.deleted == 0
    &&& r.missing_updated == 0
    &&& r.missing_deleted == 0
    &&& r.active_users == active
    &&& r.full_applied
}

/// Adding one user to a store: a user with the same uuid is replaced, and then counts as updated.
pub open spec fn store_add<K>(p: Progress<K>, user: CoreUser, key: K) -> Progress<K> {
    if user.blank() {
        p
    } else if uuid_at(p.users, user.uuid@) >= 0 {
        Progress {
            users: put(without_uuid(p.users, user.uuid@), key, user),
            updated: p.updated + 1,
            ..p
        }
    } else {
        Progress { users: put(p.users, key, user), added: p.added + 1, ..p }
    }
}

/// Updating one user of a store: only a user whose uuid is there.
pub open spec fn store_update<K>(p: Progress<K>, user: CoreUser, key: K) -> Progress<K> {
    if user.blank() {
        p
    } else if uuid_at(p.users, user.uuid@) >= 0 {
        Progress {
            users: put(without_uuid(p.users, user.uuid@), key, user),
            updated: p.updated + 1,
            ..p
        }
    } else {
        Progress { missing_updated: p.missing_updated + 1, ..p }
    }
}

/// Deleting one uuid from a store.
pub open spec fn store_delete<K>(p: Progress<K>, uuid: Seq<char>) -> Progress<K> {
    if uuid_at(p.users, uuid) >= 0 {
        Progress { users: without_uuid(p.users, uuid), deleted: p.deleted + 1, ..p }
    } else {
        Progress { missing_deleted: p.missing_deleted + 1, ..p }
    }
}

/// Adding users one after the other.
pub open spec fn store_add_all<K>(
    p: Progress<K>,
    users: Seq<CoreUser>,
    key: spec_fn(CoreUser) -> K,
) -> Progress<K>
    decreases users.len(),
{
    if users.len() == 0 {
        p
    } else {
        let last = users[users.len() - 1];
        store_add(store_add_all(p, users.subrange(0, users.len() - 1), key), last, key(last))
    }
}

/// Updating users one after the other.
pub open spec fn store_update_all<K>(
    p: Progress<K>,
    users: Seq<CoreUser>,
    key: spec_fn(CoreUser) -> K,
) -> Progress<K>
    decreases users.len(),
{
    if users.len() == 0 {
        p
    } else {
        let last = users[users.len() - 1];
        store_update(store_update_all(p, users.subrange(0, users.len() - 1), key), last, key(last))
    }
}

/// Deleting uuids one after the other.
pub open spec fn store_delete_all<K>(p: Progress<K>, uuids: Seq<String>) -> Progress<K>
    decreases uuids.len(),
{
    if uuids.len() == 0 {
        p
    } else {
        store_delete(
            store_delete_all(p, uuids.subrange(0, uuids.len() - 1)),
            uuids[uuids.len() - 1]@,
        )
    }
}

/// An incremental change applied to a store: additions, then updates, then deletions.
pub open spec fn store_delta<K>(
    users: Seq<(K, CoreUser)>,
    delta: CoreUserDelta,
    key: spec_fn(CoreUser) -> K,
) -> Progress<K> {
    store_delete_all(
        store_update_all(
            store_add_all(unchanged(users), delta.added@, key),
            delta.updated@,
            key,
        ),
        delta.deleted@,
    )
}

/// The users of a list under their keys; the last of several with one key stays.
pub open spec fn keyed_users<K>(users: Seq<CoreUser>, key: spec_fn(CoreUser) -> K) -> Seq<
    (K, CoreUser),
>
    decreases users.len(),
{
    if users.len() == 0 {
        Seq::empty()
    } else {
        let rest = keyed_users(users.subrange(0, users.len() - 1), key);
        let last = users[users.len() - 1];
        if last.blank() {
            rest
        } else {
            put(rest, key(last), last)
        }
    }
}

/// Whether a function can be called with every user.
pub open spec fn takes_every_user<O, F: Fn(&CoreUser) -> O>(f: F) -> bool {
    forall|u: CoreUser| call_requires(f, (&u,))
}

/// Whether every text that a function gives a user is the one of the rule.
pub open spec fn follows<F: Fn(&CoreUser) -> String>(
    f: F,
    rule: spec_fn(CoreUser) -> Seq<char>,
) -> bool {
    forall|u: CoreUser, o: String| #[trigger] call_ensures(f, (&u,), o) ==> o@ == rule(u)
}

/// A set of users under text keys, as the protocol servers look them up.
pub struct UserStore {
    users: Table<String, Arc<CoreUser>>,
}

impl View for UserStore {
    type V = Seq<(Seq<char>, CoreUser)>;

    closed spec fn view(&self) -> Seq<(Seq<char>, CoreUser)> {
        roster(self.users@)
    }
}

impl UserStore {
    /// No two users have the same key.
    pub open spec fn wf(&self) -> bool {
        distinct(self@)
    }

    /// A store without users.
    pub fn new() -> (r: UserStore)
        ensures
            r.wf(),
            r@ == Seq::<(Seq<char>, CoreUser)>::empty(),
    {
        let users: Table<String, Arc<CoreUser>> = Table::new();
        proof {
            lemma_roster(users@);
        }
        let r = UserStore { users };
        assert(r@ =~= Seq::<(Seq<char>, CoreUser)>::empty());
        r
    }

    /// The users of a list under the keys that a rule gives them.
    pub fn from_keyed_users<F: Fn(&CoreUser) -> String>(users: &[CoreUser], key: F) -> (r: UserStore)
        requires
            takes_every_user(key),
        ensures
            r.wf(),
            forall|rule: spec_fn(CoreUser) -> Seq<char>| #[trigger]
                follows(key, rule) ==> r@ == keyed_users(users@, rule),
    {
        let mut store = UserStore::new();
        store.replace_keyed_users(users, key);
        store
    }

    /// The users of a list under their uuids.
    pub fn from_uuid_users(users: &[CoreUser]) -> (r: UserStore)
        ensures
            r.wf(),
            r@ == keyed_users(users@, |u: CoreUser| u.uuid@),
    {
        let mut store = UserStore::new();
        store.replace_uuid_users(users);
        store
    }

    /// Makes the users of a list, under the keys that a rule gives them, the users of the store.
    pub fn replace_keyed_users<F: Fn(&CoreUser) -> String>(&mut self, users: &[CoreUser], key: F)
        requires
            takes_every_user(key),
        ensures
            final(self).wf(),
            forall|rule: spec_fn(CoreUser) -> Seq<char>| #[trigger]
                follows(key, rule) ==> final(self)@ == keyed_users(users@, rule),
    {
        let mut next: Table<String, Arc<CoreUser>> = Table::new();
        let mut i: usize = 0;
        proof {
            lemma_roster(next@);
            assert(roster(next@) =~= Seq::<(Seq<char>, CoreUser)>::empty());
        }
        while i < users.len()
            invariant
                i <= users@.len(),
                takes_every_user(key),
                next.wf(),
                forall|rule: spec_fn(CoreUser) -> Seq<char>| #[trigger]
                    follows(key, rule) ==> roster(next@) == keyed_users(
                        users@.subrange(0, i as int),
                        rule,
                    ),
            decreases users.len() - i,
        {
            let user = &users[i];
            let ghost longer = users@.subrange(0, i + 1);
            assert(longer.subrange(0, longer.len() - 1) == users@.subrange(0, i as int));
            if !user.is_empty() {
                let k = key(user);
                proof {
                    lemma_roster(next@);
                }
                let cell: Arc<CoreUser> = UserCell::hold(user.clone());
                let old = next.insert(k, cell);
            }
            i += 1;
        }
        assert(users@.subrange(0, users@.len() as int) == users@);
        proof {
            lemma_roster(next@);
        }
        self.users = next;
    }

    /// Makes the users of a list, under their uuids, the users of the store.
    pub fn replace_uuid_users(&mut self, users: &[CoreUser])
        ensures
            final(self).wf(),
            final(self)@ == keyed_users(users@, |u: CoreUser| u.uuid@),
    {
        proof {
            lemma_uuid_key();
        }
        self.replace_keyed_users(users, uuid_key);
    }

    /// Whether the store holds no user.
    pub fn is_empty(&self) -> (r: bool)
        ensures
            r == (self@.len() == 0),
    {
        proof {
            lemma_roster(self.users@);
        }
        self.users.is_empty()
    }

    /// The number of users.
    pub fn len(&self) -> (r: usize)
        ensures
            r == self@.len(),
    {
        proof {
            lemma_roster(self.users@);
        }
        self.users.len()
    }

    /// What a log says of the store: how many users it has, and nothing of them.
    pub fn debug_text(&self) -> (r: String)
        ensures
            r@ == "UserStore { len: "@ + decimal(self@.len()) + ", .. }"@,
    {
        let count = decimal_text(self.len() as u64);
        let mut text = "UserStore { len: ".to_owned();
        text.append(count.as_str());
        text.append(", .. }");
        text
    }

    /// The users, ordered by uuid.
    pub fn list(&self) -> (r: Vec<CoreUser>)
        ensures
            r@ == ranked(self@.map_values(|e: (Seq<char>, CoreUser)| e.1)),
    {
        proof {
            lemma_roster(self.users@);
        }
        let ghost values = self@.map_values(|e: (Seq<char>, CoreUser)| e.1);
        let mut users: Vec<CoreUser> = Vec::new();
        let mut i: usize = 0;
        while i < self.users.len()
            invariant
                i <= self.users@.len(),
                values.len() == self.users@.len(),
                forall|k: int| 0 <= k < values.len() ==> #[trigger] values[k] == self.users@[k].1.held(),
                users@ == values.subrange(0, i as int),
            decreases self.users@.len() - i,
        {
            assert(values[i as int] == self.users@[i as int].1.held());
            users.push(self.users.value_at(i).user().clone());
            i += 1;
            assert(users@ =~= values.subrange(0, i as int));
        }
        assert(users@ =~= values);
        sort_ranked(users)
    }

    /// The user under a key.
    pub fn get(&self, key: &str) -> (r: Option<CoreUser>)
        ensures
            r == get(self@, key@),
    {
        proof {
            lemma_roster(self.users@);
            lemma_find(self.users@, key@);
        }
        match self.users.get(&key.to_owned()) {
            Some(cell) => Some(cell.user().clone()),
            None => None,
        }
    }

    /// The user under a key, shared with the store.
    pub fn get_arc(&self, key: &str) -> (r: Option<Arc<CoreUser>>)
        ensures
            r is Some == holds(self@, key@),
            r is Some ==> Some(*r->0) == get(self@, key@),
    {
        proof {
            lemma_roster(self.users@);
            lemma_find(self.users@, key@);
        }
        match self.users.get(&key.to_owned()) {
            Some(cell) => Some(share(cell)),
            None => None,
        }
    }

    /// Applies a change: a full list replaces all users; else users are added, then updated,
    /// then deleted, found by their uuids and put under the keys that a rule gives them.
    pub fn apply_keyed_delta<F: Fn(&CoreUser) -> String>(
        &mut self,
        delta: &CoreUserDelta,
        key: F,
    ) -> (r: CoreUserDeltaResult)
        requires
            old(self).wf(),
            takes_every_user(key),
        ensures
            final(self).wf(),
            forall|rule: spec_fn(CoreUser) -> Seq<char>| #[trigger]
                follows(key, rule) ==> match delta.full {
                    Some(full) => {
                        &&& final(self)@ == keyed_users(full@, rule)
                        &&& replaced(final(self)@.len(), r)
                    },
                    None => {
                        &&& final(self)@ == store_delta(old(self)@, *delta, rule).users
                        &&& tally(store_delta(old(self)@, *delta, rule), r)
                    },
                },
    {
        if let Some(full) = &delta.full {
            self.replace_keyed_users(full.as_slice(), key);
            let mut result = CoreUserDeltaResult::default();
            result.active_users = self.len();
            result.full_applied = true;
            return result;
        }
        let mut result = CoreUserDeltaResult::default();
        let ghost start = self@;
        proof {
            lemma_roster(self.users@);
        }
        let mut i: usize = 0;
        while i < delta.added.len()
            invariant
                i <= delta.added@.len(),
                distinct(self.users@),
                takes_every_user(key),
                forall|rule: spec_fn(CoreUser) -> Seq<char>| #[trigger]
                    follows(key, rule) ==> counts(
                        store_add_all(unchanged(start), delta.added@.subrange(0, i as int), rule),
                        roster(self.users@),
                        result,
                    ),
                result.active_users == 0,
                !result.full_applied,
            decreases delta.added.len() - i,
        {
            let user = &delta.added[i];
            let ghost longer = delta.added@.subrange(0, i + 1);
            assert(longer.subrange(0, longer.len() - 1) == delta.added@.subrange(0, i as int));
            if !user.is_empty() {
                let k = key(user);
                if remove_by_uuid(&mut self.users, user.uuid.as_str()) {
                    result.updated = result.updated.saturating_add(1);
                } else {
                    result.added = result.added.saturating_add(1);
                }
                proof {
                    lemma_roster(self.users@);
                }
                let cell: Arc<CoreUser> = UserCell::hold(user.clone());
                let old = self.users.insert(k, cell);
            }
            i += 1;
        }
        assert(delta.added@.subrange(0, delta.added@.len() as int) == delta.added@);
        let mut j: usize = 0;
        while j < delta.updated.len()
            invariant
                j <= delta.updated@.len(),
                distinct(self.users@),
                takes_every_user(key),
                forall|rule: spec_fn(CoreUser) -> Seq<char>| #[trigger]
                    follows(key, rule) ==> counts(
                        store_update_all(
                            store_add_all(unchanged(start), delta.added@, rule),
                            delta.updated@.subrange(0, j as int),
                            rule,
                        ),
                        roster(self.users@),
                        result,
                    ),
                result.active_users == 0,
                !result.full_applied,
            decreases delta.updated.len() - j,
        {
            let user = &delta.updated[j];
            let ghost longer = delta.updated@.subrange(0, j + 1);
            assert(longer.subrange(0, longer.len() - 1) == delta.updated@.subrange(0, j as int));
            if !user.is_empty() {
                let k = key(user);
                if remove_by_uuid(&mut self.users, user.uuid.as_str()) {
                    proof {
                        lemma_roster(self.users@);
                    }
                    let cell: Arc<CoreUser> = UserCell::hold(user.clone());
                    let old = self.users.insert(k, cell);
                    result.updated = result.updated.saturating_add(1);
                } else {
                    result.missing_updated = result.missing_updated.saturating_add(1);
                }
            }
            j += 1;
        }
        assert(delta.updated@.subrange(0, delta.updated@.len() as int) == delta.updated@);
        let mut n: usize = 0;
        while n < delta.deleted.len()
            invariant
                n <= delta.deleted@.len(),
                distinct(self.users@),
                forall|rule: spec_fn(CoreUser) -> Seq<char>| #[trigger]
                    follows(key, rule) ==> counts(
                        store_delete_all(
                            store_update_all(
                                store_add_all(unchanged(start), delta.added@, rule),
                                delta.updated@,
                                rule,
                            ),
                            delta.deleted@.subrange(0, n as int),
                        ),
                        roster(self.users@),
                        result,
                    ),
                result.active_users == 0,
                !result.full_applied,
            decreases delta.deleted.len() - n,
        {
            let ghost longer = delta.deleted@.subrange(0, n + 1);
            assert(longer.subrange(0, longer.len() - 1) == delta.deleted@.subrange(0, n as int));
            if remove_by_uuid(&mut self.users, delta.deleted[n].as_str()) {
                result.deleted = result.deleted.saturating_add(1);
            } else {
                result.missing_deleted = result.missing_deleted.saturating_add(1);
            }
            n += 1;
        }
        assert(delta.deleted@.subrange(0, delta.deleted@.len() as int) == delta.deleted@);
        proof {
            lemma_roster(self.users@);
        }
        result.active_users = self.users.len();
        result
    }

    /// Applies a change to a store whose users are under their uuids.
    pub fn apply_uuid_delta(&mut self, delta: &CoreUserDelta) -> (r: CoreUserDeltaResult)
        requires
            old(self).wf(),
        ensures
            final(self).wf(),
            match delta.full {
                Some(full) => {
                    &&& final(self)@ == keyed_users(full@, |u: CoreUser| u.uuid@)
                    &&& replaced(final(self)@.len(), r)
                },
                None => {
                    &&& final(self)@ == store_delta(old(self)@, *delta, |u: CoreUser| u.uuid@).users
                    &&& tally(store_delta(old(self)@, *delta, |u: CoreUser| u.uuid@), r)
                },
            },
    {
        proof {
            lemma_uuid_key();
        }
        self.apply_keyed_delta(delta, uuid_key)
    }
}

impl Default for UserStore {
    fn default() -> (r: UserStore)
        ensures
            r.wf(),
            r@ == Seq::<(Seq<char>, CoreUser)>::empty(),
    {
        UserStore::new()
    }
}

/// The users and counts of a change that is being applied.
pub open spec fn counts<K>(
    p: Progress<K>,
    users: Seq<(K, CoreUser)>,
    r: CoreUserDeltaResult,
) -> bool {
    &&& users == p.users
    &&& r.added == count_of(p.added)
    &&& r.updated == count_of(p.updated)
    &&& r.deleted == count_of(p.deleted)
    &&& r.missing_updated == count_of(p.missing_updated)
    &&& r.missing_deleted == count_of(p.missing_deleted)
}

/// `Arc::clone`: the clone holds the same user.
#[verifier::external_body]
fn share(user: &Arc<CoreUser>) -> (r: Arc<CoreUser>)
    ensures
        r == *user,
{
    Arc::clone(user)
}

/// The position of the first user with the uuid.
fn position_by_uuid<K: TableKey, C: UserCell>(users: &Table<K, C>, uuid: &str) -> (r: Option<usize>)
    ensures
        match r {
            Some(i) => i < users@.len() && i == uuid_at(roster(users@), uuid@),
            None => uuid_at(roster(users@), uuid@) < 0,
        },
{
    let wanted = uuid.to_owned();
    let ghost index = by_uuid(roster(users@));
    let mut i: usize = 0;
    while i < users.len()
        invariant
            i <= users@.len(),
            wanted@ == uuid@,
            index == by_uuid(roster(users@)),
            forall|k: int| 0 <= k < i ==> #[trigger] index[k].0 != uuid@,
        decreases users@.len() - i,
    {
        assert(index[i as int].0 == users@[i as int].1.held().uuid@);
        if users.value_at(i).user().uuid == wanted {
            proof {
                lemma_find_at(index, uuid@, i as int);
            }
            return Some(i);
        }
        i += 1;
    }
    proof {
        lemma_find_none(index, uuid@);
    }
    None
}

/// Removes the first user with the uuid.
fn remove_by_uuid<K: TableKey, C: UserCell>(users: &mut Table<K, C>, uuid: &str) -> (r: bool)
    ensures
        r == (uuid_at(roster(old(users)@), uuid@) >= 0),
        roster(final(users)@) == without_uuid(roster(old(users)@), uuid@),
        distinct(old(users)@) ==> distinct(final(users)@),
{
    proof {
        lemma_roster(users@);
    }
    match position_by_uuid(users, uuid) {
        Some(i) => {
            let cell = users.remove_at(i);
            true
        },
        None => false,
    }
}

/// The uuid of a user.
pub fn uuid_key(user: &CoreUser) -> (r: String)
    ensures
        r@ == user.uuid@,
{
    user.uuid.clone()
}

/// The uuid is a key rule.
pub proof fn lemma_uuid_key()
    ensures
        takes_every_user(uuid_key),
        follows(uuid_key, |u: CoreUser| u.uuid@),
{
}

} // verus!
