//! Fingerprints of the users of an inbound, by which a change of its users is noticed.

use std::collections::hash_map::DefaultHasher;
use std::hash::Hasher;

use vstd::bytes::{
    lemma_auto_spec_u32_to_from_le_bytes, lemma_auto_spec_u64_to_from_le_bytes,
    spec_u32_to_le_bytes, spec_u64_from_le_bytes, spec_u64_to_le_bytes, u32_to_le_bytes,
    u64_to_le_bytes,
};
use vstd::prelude::*;
use vstd::std_specs::hash::DefaultHasherAdditionalSpecFns;
use vstd::utf8::{encode_utf8, encode_utf8_decode_utf8};

use crate::config::InboundConfig;
use crate::table::{cut, get, holds, lemma_find, lemma_mapped, mapped, put, Table};
use crate::user::{CoreUser, CoreUserDelta};

verus! {

/// What is hashed of a text: its bytes, and a byte that no text holds.
pub open spec fn text_writes(text: Seq<char>) -> Seq<Seq<u8>> {
    seq![encode_utf8(text), seq![0xffu8]]
}

/// What is hashed of an optional text: whether it is there, and the text.
pub open spec fn option_writes(text: Option<String>) -> Seq<Seq<u8>> {
    match text {
        Some(text) => seq![spec_u64_to_le_bytes(1)] + text_writes(text@),
        None => seq![spec_u64_to_le_bytes(0)],
    }
}

/// What is hashed of a user: all of its fields, one after the other.
pub open spec fn user_writes(user: CoreUser) -> Seq<Seq<u8>> {
    seq![spec_u64_to_le_bytes(user.id)] + text_writes(user.uuid@) + option_writes(user.password)
        + option_writes(user.email) + seq![
        spec_u64_to_le_bytes(user.speed_limit),
        spec_u32_to_le_bytes(user.device_limit),
    ]
}

/// The fingerprint of a user.
pub open spec fn print_of(user: CoreUser) -> u64 {
    DefaultHasher::spec_finish(user_writes(user))
}

/// Hashes a text.
fn hash_text(hasher: &mut DefaultHasher, text: &str)
    ensures
        final(hasher)@ == old(hasher)@ + text_writes(text@),
{
    let mark: [u8; 1] = [0xff];
    hasher.write(text.as_bytes());
    hasher.write(mark.as_slice());
    assert(mark@ =~= seq![0xffu8]);
    assert(hasher@ =~= old(hasher)@ + text_writes(text@));
}

/// Hashes an optional text.
fn hash_option(hasher: &mut DefaultHasher, text: &Option<String>)
    ensures
        final(hasher)@ == old(hasher)@ + option_writes(*text),
{
    match text {
        Some(text) => {
            hasher.write(u64_to_le_bytes(1).as_slice());
            hash_text(hasher, text.as_str());
        },
        None => {
            hasher.write(u64_to_le_bytes(0).as_slice());
        },
    }
    assert(hasher@ =~= old(hasher)@ + option_writes(*text));
}

/// The fingerprint of a user: the hash of all of its fields.
pub fn user_fingerprint(user: &CoreUser) -> (r: u64)
    ensures
        r == print_of(*user),
{
    let mut hasher = DefaultHasher::new();
    hasher.write(u64_to_le_bytes(user.id).as_slice());
    hash_text(&mut hasher, user.uuid.as_str());
    hash_option(&mut hasher, &user.password);
    hash_option(&mut hasher, &user.email);
    hasher.write(u64_to_le_bytes(user.speed_limit).as_slice());
    hasher.write(u32_to_le_bytes(user.device_limit).as_slice());
    assert(hasher@ =~= user_writes(*user));
    hasher.finish()
}

/// Whether two optional texts are the same.
pub open spec fn same_option(a: Option<String>, b: Option<String>) -> bool {
    match (a, b) {
        (Some(a), Some(b)) => a@ == b@,
        (None, None) => true,
        _ => false,
    }
}

/// Optional texts that are hashed alike, whatever follows them, are the same.
proof fn lemma_option_writes(
    a: Option<String>,
    b: Option<String>,
    s: Seq<Seq<u8>>,
    t: Seq<Seq<u8>>,
)
    requires
        option_writes(a) + s == option_writes(b) + t,
    ensures
        same_option(a, b),
        s == t,
{
    lemma_auto_spec_u64_to_from_le_bytes();
    let x = option_writes(a) + s;
    let y = option_writes(b) + t;
    assert(x[0] == y[0]);
    assert(spec_u64_from_le_bytes(spec_u64_to_le_bytes(0)) == 0);
    assert(spec_u64_from_le_bytes(spec_u64_to_le_bytes(1)) == 1);
    if a is Some && b is Some {
        assert(x[1] == y[1]);
        encode_utf8_decode_utf8(a->0@);
        encode_utf8_decode_utf8(b->0@);
    }
    let n = option_writes(a).len() as int;
    assert(x.subrange(n, x.len() as int) =~= s);
    assert(y.subrange(n, y.len() as int) =~= t);
}

/// What is hashed tells users apart: it is the same for two users only where all of their fields
/// are.
pub proof fn law_every_field_is_hashed(a: CoreUser, b: CoreUser)
    requires
        user_writes(a) == user_writes(b),
    ensures
        a.id == b.id,
        a.uuid@ == b.uuid@,
        same_option(a.password, b.password),
        same_option(a.email, b.email),
        a.speed_limit == b.speed_limit,
        a.device_limit == b.device_limit,
{
    lemma_auto_spec_u64_to_from_le_bytes();
    lemma_auto_spec_u32_to_from_le_bytes();
    let end_a = seq![spec_u64_to_le_bytes(a.speed_limit), spec_u32_to_le_bytes(a.device_limit)];
    let end_b = seq![spec_u64_to_le_bytes(b.speed_limit), spec_u32_to_le_bytes(b.device_limit)];
    let x = user_writes(a);
    let y = user_writes(b);
    assert(x[0] == spec_u64_to_le_bytes(a.id) && y[0] == spec_u64_to_le_bytes(b.id));
    assert(x[1] == encode_utf8(a.uuid@) && y[1] == encode_utf8(b.uuid@));
    encode_utf8_decode_utf8(a.uuid@);
    encode_utf8_decode_utf8(b.uuid@);
    let n = x.len() as int;
    let rest_a = option_writes(a.email) + end_a;
    let rest_b = option_writes(b.email) + end_b;
    assert(x.subrange(3, n) =~= option_writes(a.password) + rest_a);
    assert(y.subrange(3, n) =~= option_writes(b.password) + rest_b);
    lemma_option_writes(a.password, b.password, rest_a, rest_b);
    lemma_option_writes(a.email, b.email, end_a, end_b);
    assert(end_a[0] == end_b[0] && end_a[1] == end_b[1]);
    assert(spec_u32_to_le_bytes(a.device_limit).len() == spec_u32_to_le_bytes(b.device_limit).len());
}

/// Fingerprints with those of users added, under their uuids; blank users have none.
pub open spec fn prints_put(
    prints: Seq<(Seq<char>, u64)>,
    users: Seq<CoreUser>,
) -> Seq<(Seq<char>, u64)>
    decreases users.len(),
{
    if users.len() == 0 {
        prints
    } else {
        let earlier = prints_put(prints, users.subrange(0, users.len() - 1));
        let last = users[users.len() - 1];
        if last.blank() {
            earlier
        } else {
            put(earlier, last.uuid@, print_of(last))
        }
    }
}

/// Fingerprints without those of some uuids.
pub open spec fn prints_cut(prints: Seq<(Seq<char>, u64)>, uuids: Seq<String>) -> Seq<
    (Seq<char>, u64),
>
    decreases uuids.len(),
{
    if uuids.len() == 0 {
        prints
    } else {
        cut(
            prints_cut(prints, uuids.subrange(0, uuids.len() - 1)),
            uuids[uuids.len() - 1]@,
        )
    }
}

/// The fingerprints of a list of users.
pub open spec fn prints_of(users: Seq<CoreUser>) -> Seq<
    (Seq<char>, u64),
> {
    prints_put(Seq::empty(), users)
}

/// The fingerprints after a change of users: those of the full list where there is one, or else
/// those before, with the added, with the updated, and without the deleted users.
pub open spec fn prints_delta(
    prints: Seq<(Seq<char>, u64)>,
    delta: CoreUserDelta,
) -> Seq<(Seq<char>, u64)> {
    match delta.full {
        Some(full) => prints_of(full@),
        None => prints_cut(
            prints_put(prints_put(prints, delta.added@), delta.updated@),
            delta.deleted@,
        ),
    }
}

/// Whether fingerprints are the same: each uuid has the same one, or none.
pub open spec fn same_prints(a: Seq<(Seq<char>, u64)>, b: Seq<(Seq<char>, u64)>) -> bool {
    forall|uuid: Seq<char>| #[trigger] get(a, uuid) == get(b, uuid)
}

/// The fingerprints of an inbound's users.
#[derive(Debug)]
pub struct UserFingerprintState {
    users: Table<String, u64>,
}

impl View for UserFingerprintState {
    type V = Seq<(Seq<char>, u64)>;

    closed spec fn view(&self) -> Seq<(Seq<char>, u64)> {
        self.users@
    }
}

impl UserFingerprintState {
    /// No fingerprints.
    pub fn new() -> (r: UserFingerprintState)
        ensures
            r@ == Seq::<(Seq<char>, u64)>::empty(),
    {
        UserFingerprintState { users: Table::new() }
    }

    /// Adds the fingerprints of users.
    fn put_users(&mut self, users: &Vec<CoreUser>)
        ensures
            final(self)@ == prints_put(old(self)@, users@),
    {
        let ghost before = self@;
        let mut i: usize = 0;
        assert(users@.subrange(0, 0) =~= Seq::<CoreUser>::empty());
        while i < users.len()
            invariant
                i <= users@.len(),
                before == old(self)@,
                self@ == prints_put(before, users@.subrange(0, i as int)),
            decreases users.len() - i,
        {
            let ghost longer = users@.subrange(0, i + 1);
            assert(longer.subrange(0, longer.len() - 1) =~= users@.subrange(0, i as int));
            let user = &users[i];
            assert(longer[longer.len() - 1] == *user);
            if !user.is_empty() {
                self.users.insert(user.uuid.clone(), user_fingerprint(user));
            }
            i += 1;
        }
        assert(users@.subrange(0, users@.len() as int) =~= users@);
    }

    /// The fingerprints of users.
    pub fn from_users(users: &Vec<CoreUser>) -> (r: UserFingerprintState)
        ensures
            r@ == prints_of(users@),
    {
        let mut state = UserFingerprintState::new();
        state.put_users(users);
        state
    }

    /// Follows a change of users.
    pub fn apply_delta(&mut self, delta: &CoreUserDelta)
        ensures
            final(self)@ == prints_delta(old(self)@, *delta),
    {
        if let Some(full) = &delta.full {
            let state = UserFingerprintState::from_users(full);
            self.users = state.users;
            return;
        }
        self.put_users(&delta.added);
        self.put_users(&delta.updated);
        let ghost before = self@;
        let ghost uuids = delta.deleted@;
        let mut i: usize = 0;
        assert(uuids.subrange(0, 0) =~= Seq::<String>::empty());
        while i < delta.deleted.len()
            invariant
                i <= delta.deleted@.len(),
                uuids == delta.deleted@,
                self@ == prints_cut(before, uuids.subrange(0, i as int)),
            decreases delta.deleted.len() - i,
        {
            let ghost longer = uuids.subrange(0, i + 1);
            assert(longer.subrange(0, longer.len() - 1) =~= uuids.subrange(0, i as int));
            self.users.remove(&delta.deleted[i]);
            i += 1;
        }
        assert(uuids.subrange(0, uuids.len() as int) =~= uuids);
    }

    /// Whether each fingerprint is among the others.
    fn within(&self, other: &UserFingerprintState) -> (r: bool)
        ensures
            r == (forall|uuid: Seq<char>|
                holds(self@, uuid) ==> #[trigger] get(self@, uuid) == get(other@, uuid)),
    {
        let mut i: usize = 0;
        while i < self.users.len()
            invariant
                i <= self@.len(),
                self@ == self.users@,
                other@ == other.users@,
                forall|k: int|
                    0 <= k < i && find_is(self@, k) ==> get(other@, #[trigger] self@[k].0) == Some(
                        self@[k].1,
                    ),
            decreases self@.len() - i,
        {
            let uuid = self.users.key_at(i);
            let first = match self.users.position(uuid) {
                Some(at) => at == i,
                None => false,
            };
            if first {
                let print: u64 = *self.users.value_at(i);
                let same = match other.users.get(uuid) {
                    Some(theirs) => *theirs == print,
                    None => false,
                };
                if !same {
                    assert(get(self@, uuid@) == Some(print));
                    assert(holds(self@, uuid@));
                    return false;
                }
            }
            i += 1;
        }
        assert forall|uuid: Seq<char>| holds(self@, uuid) implies #[trigger] get(self@, uuid) == get(
            other@,
            uuid,
        ) by {
            lemma_find(self@, uuid);
            let k = crate::table::find(self@, uuid);
            assert(self@[k].0 == uuid);
            assert(find_is(self@, k));
        }
        true
    }

    /// Whether fingerprints are the same.
    pub fn same(&self, other: &UserFingerprintState) -> (r: bool)
        ensures
            r == same_prints(self@, other@),
    {
        let forward = self.within(other);
        let backward = other.within(self);
        proof {
            if forward && backward {
                assert forall|uuid: Seq<char>| #[trigger] get(self@, uuid) == get(other@, uuid) by {
                    if !holds(self@, uuid) && holds(other@, uuid) {
                        assert(get(other@, uuid) == get(self@, uuid));
                    }
                }
            } else if !forward {
                let uuid = choose|uuid: Seq<char>|
                    holds(self@, uuid) && #[trigger] get(self@, uuid) != get(other@, uuid);
                assert(get(self@, uuid) != get(other@, uuid));
            } else {
                let uuid = choose|uuid: Seq<char>|
                    holds(other@, uuid) && #[trigger] get(other@, uuid) != get(self@, uuid);
                assert(get(self@, uuid) != get(other@, uuid));
            }
        }
        forward && backward
    }
}

/// Whether an entry is the first with its key.
spec fn find_is(s: Seq<(Seq<char>, u64)>, k: int) -> bool {
    crate::table::find(s, s[k].0) == k
}

/// What a fingerprint of users is in a contract.
pub open spec fn prints_view() -> spec_fn(UserFingerprintState) -> Seq<(Seq<char>, u64)> {
    |state: UserFingerprintState| state@
}

/// The fingerprints of the users of inbounds, under their tags.
pub open spec fn inbound_prints(inbounds: Seq<InboundConfig>) -> Seq<
    (Seq<char>, Seq<(Seq<char>, u64)>),
>
    decreases inbounds.len(),
{
    if inbounds.len() == 0 {
        Seq::empty()
    } else {
        let last = inbounds[inbounds.len() - 1];
        put(
            inbound_prints(inbounds.subrange(0, inbounds.len() - 1)),
            last.tag@,
            prints_of(last.users@),
        )
    }
}

/// The fingerprints of the users of inbounds.
pub fn user_fingerprints_for_inbounds(inbounds: &Vec<InboundConfig>) -> (r: Table<
    String,
    UserFingerprintState,
>)
    ensures
        r.wf(),
        mapped(r@, prints_view()) == inbound_prints(inbounds@),
{
    let mut out: Table<String, UserFingerprintState> = Table::new();
    let mut i: usize = 0;
    assert(inbounds@.subrange(0, 0) =~= Seq::<InboundConfig>::empty());
    assert(mapped(out@, prints_view()) =~= Seq::<(Seq<char>, Seq<(Seq<char>, u64)>)>::empty());
    while i < inbounds.len()
        invariant
            i <= inbounds@.len(),
            out.wf(),
            mapped(out@, prints_view()) == inbound_prints(inbounds@.subrange(0, i as int)),
        decreases inbounds.len() - i,
    {
        let ghost longer = inbounds@.subrange(0, i + 1);
        let ghost earlier = out@;
        assert(longer.subrange(0, longer.len() - 1) =~= inbounds@.subrange(0, i as int));
        assert(longer[longer.len() - 1] == inbounds@[i as int]);
        let prints = UserFingerprintState::from_users(&inbounds[i].users);
        proof {
            lemma_mapped(earlier, prints_view());
        }
        let ghost print_model = prints@;
        out.insert(inbounds[i].tag.clone(), prints);
        assert(mapped(out@, prints_view()) == put(
            mapped(earlier, prints_view()),
            inbounds@[i as int].tag@,
            print_model,
        ));
        i += 1;
    }
    assert(inbounds@.subrange(0, inbounds@.len() as int) =~= inbounds@);
    out
}

} // verus!
