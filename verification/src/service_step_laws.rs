//! What a node does about each of its inbounds, and what it begins with.

use vstd::prelude::*;

use crate::address::SocketAddress;
use crate::config::{CoreConfig, InboundConfig};
use crate::delta_laws::{last_named, listed};
use crate::error::CoreError;
use crate::fingerprints::{
    inbound_prints, print_of, prints_cut, prints_delta, prints_of, prints_put, same_prints,
};
use crate::listener_binds::{accepted, over_quic, quic_count, ValidationError};
use crate::numeral::{decimal, parse_unsigned};
use crate::service::{
    delta_taken, refusal, revisions_after, started, updated, users_known, ServiceModel,
    StartedService, UpdateAction,
};
use crate::service_config::{connect_timeout, positive};
use crate::service_error::CoreServiceError;
use crate::service_laws::{distinct_tags, law_update_leaves_other_tags};
use crate::table::{distinct, find, get, lemma_cut, lemma_find, lemma_put};
use crate::text::trim;
use crate::user::{CoreUser, CoreUserDelta};

verus! {

/// An update replaces the users of a listener exactly where the inbound with its tag has other
/// users than those that the node knows, and the routes of every listener that an inbound has the
/// tag of; each only where it is asked for. Nothing else is done.
pub proof fn law_update_does_what_is_needed(
    m: ServiceModel,
    inbounds: Seq<InboundConfig>,
    users: bool,
    routes: bool,
    i: int,
)
    requires
        distinct(m.revisions),
        distinct_tags(inbounds),
        0 <= i < inbounds.len() <= usize::MAX,
        m.listeners.len() <= usize::MAX,
    ensures
        ({
            let done = updated(m, inbounds, users, routes).1;
            let at = find(m.listeners, inbounds[i].tag@);
            let known = users_known(m, inbounds[i]);
            &&& done.contains(
                UpdateAction::ReplaceUsers { listener: at as usize, inbound: i as usize },
            ) <==> users && at >= 0 && !known
            &&& done.contains(
                UpdateAction::ReplaceRoutes { listener: at as usize, inbound: i as usize },
            ) <==> routes && at >= 0
        }),
        updates_match(m, inbounds, updated(m, inbounds, users, routes).1),
    decreases inbounds.len(),
{
    let n = inbounds.len() - 1;
    let rest = inbounds.subrange(0, n);
    let last = inbounds[n];
    let (m1, done1) = updated(m, rest, users, routes);
    let all = updated(m, inbounds, users, routes).1;
    assert forall|a: int, b: int| 0 <= a < b < rest.len() implies (#[trigger] rest[a]).tag@ != (
    #[trigger] rest[b]).tag@ by {
        assert(rest[a] == inbounds[a] && rest[b] == inbounds[b]);
    }
    assert forall|k: int| 0 <= k < rest.len() implies (#[trigger] rest[k]).tag@ != last.tag@ by {
        assert(rest[k] == inbounds[k]);
        assert(inbounds[n].tag@ != inbounds[k].tag@);
    }
    law_update_leaves_other_tags(m, rest, users, routes, last.tag@);
    assert(users_known(m1, last) == users_known(m, last));
    lemma_find(m.listeners, last.tag@);
    lemma_find(m.listeners, inbounds[i].tag@);
    if rest.len() > 0 {
        let k = if i < n {
            i
        } else {
            0
        };
        law_update_does_what_is_needed(m, rest, users, routes, k);
    }
    let at = find(m.listeners, last.tag@);
    let u = UpdateAction::ReplaceUsers { listener: at as usize, inbound: n as usize };
    let r = UpdateAction::ReplaceRoutes { listener: at as usize, inbound: n as usize };
    let does_users = users && at >= 0 && !users_known(m, last);
    let does_routes = routes && at >= 0;
    let done2 = if does_users {
        done1.push(u)
    } else {
        done1
    };
    let done3 = if does_routes {
        done2.push(r)
    } else {
        done2
    };
    assert(all == done3);
    assert(updates_match(m, rest, done1));
    assert forall|j: int| 0 <= j < all.len() implies update_matches(
        m,
        inbounds,
        #[trigger] all[j],
    ) by {
        if j < done1.len() {
            assert(all[j] == done1[j]);
            assert(update_matches(m, rest, done1[j]));
            assert(rest[inbound_of(done1[j])] == inbounds[inbound_of(done1[j])]);
        }
    }
    if i < n {
        assert(rest[i] == inbounds[i]);
        let x = UpdateAction::ReplaceUsers {
            listener: find(m.listeners, inbounds[i].tag@) as usize,
            inbound: i as usize,
        };
        let y = UpdateAction::ReplaceRoutes {
            listener: find(m.listeners, inbounds[i].tag@) as usize,
            inbound: i as usize,
        };
        lemma_longer(done1, all, x);
        lemma_longer(done1, all, y);
    } else {
        assert forall|j: int| 0 <= j < done1.len() implies done1[j] != u && done1[j] != r by {
            assert(update_matches(m, rest, done1[j]));
        }
        if does_users {
            assert(all[done1.len() as int] == u);
        } else if all.contains(u) {
            let j = choose|j: int| 0 <= j < all.len() && all[j] == u;
            assert(j < done1.len());
            assert(done1[j] == u);
        }
        if does_routes {
            assert(all[done2.len() as int] == r);
        } else if all.contains(r) {
            let j = choose|j: int| 0 <= j < all.len() && all[j] == r;
            if j < done1.len() {
                assert(done1[j] == r);
            }
        }
    }
}

/// What is done about an inbound stays done, and what is done later is about others.
proof fn lemma_longer(done: Seq<UpdateAction>, all: Seq<UpdateAction>, x: UpdateAction)
    requires
        done.len() <= all.len(),
        forall|j: int| 0 <= j < done.len() ==> all[j] == done[j],
        forall|j: int| done.len() <= j < all.len() ==> all[j] != x,
    ensures
        all.contains(x) <==> done.contains(x),
{
    if done.contains(x) {
        let j = choose|j: int| 0 <= j < done.len() && done[j] == x;
        assert(all[j] == x);
    }
    if all.contains(x) {
        let j = choose|j: int| 0 <= j < all.len() && all[j] == x;
        assert(j < done.len());
        assert(done[j] == x);
    }
}

/// The inbound that something is done about.
pub open spec fn inbound_of(action: UpdateAction) -> int {
    match action {
        UpdateAction::ReplaceUsers { listener, inbound } => inbound as int,
        UpdateAction::ReplaceRoutes { listener, inbound } => inbound as int,
    }
}

/// Whether something is done to the listener that has the tag of the inbound.
pub open spec fn update_matches(
    m: ServiceModel,
    inbounds: Seq<InboundConfig>,
    action: UpdateAction,
) -> bool {
    let (listener, inbound) = match action {
        UpdateAction::ReplaceUsers { listener, inbound } => (listener, inbound),
        UpdateAction::ReplaceRoutes { listener, inbound } => (listener, inbound),
    };
    listener < m.listeners.len() && inbound < inbounds.len() && m.listeners[listener as int].0
        == inbounds[inbound as int].tag@
}

/// Whether all that is done is done to listeners that have the tags of the inbounds.
pub open spec fn updates_match(
    m: ServiceModel,
    inbounds: Seq<InboundConfig>,
    done: Seq<UpdateAction>,
) -> bool {
    forall|j: int| 0 <= j < done.len() ==> update_matches(m, inbounds, #[trigger] done[j])
}

/// Users that are replaced have no revision, and users that are not keep theirs.
pub proof fn law_replaced_users_have_no_revision(
    m: ServiceModel,
    inbound: InboundConfig,
    routes: bool,
)
    requires
        distinct(m.revisions),
        find(m.listeners, inbound.tag@) >= 0,
    ensures
        ({
            let after = updated(m, seq![inbound], true, routes).0;
            &&& !users_known(m, inbound) ==> get(after.revisions, inbound.tag@) is None
            &&& users_known(m, inbound) ==> after == m
        }),
        updated(m, seq![inbound], false, routes).0 == m,
{
    reveal_with_fuel(updated, 2);
    assert(seq![inbound].subrange(0, 0) =~= Seq::empty());
    lemma_cut(m.revisions, inbound.tag@);
}

/// A change of users is refused exactly where no listener has the tag, or where it is based on a
/// revision, brings no full list, and the users have not that revision.
pub proof fn law_refusals(m: ServiceModel, tag: Seq<char>, delta: CoreUserDelta)
    ensures
        refusal(m, tag, delta) is Some <==> (forall|i: int|
            0 <= i < m.listeners.len() ==> (#[trigger] m.listeners[i]).0 != tag) || (delta.full
            is None && delta.base_revision is Some && get(m.revisions, tag) != Some(
            delta.base_revision->0@,
        )),
{
    lemma_find(m.listeners, tag);
    if find(m.listeners, tag) >= 0 {
        assert(m.listeners[find(m.listeners, tag)].0 == tag);
    }
}

/// After a change of users, the users have the revision that it brings; one that brings none takes
/// the revision away with a full list, and leaves it otherwise.
pub proof fn law_revision_after_change(
    revisions: Seq<(Seq<char>, Seq<char>)>,
    tag: Seq<char>,
    delta: CoreUserDelta,
    other: Seq<char>,
)
    requires
        distinct(revisions),
        other != tag,
    ensures
        ({
            let after = revisions_after(revisions, tag, delta);
            &&& delta.revision matches Some(r) ==> get(after, tag) == Some(r@)
            &&& delta.revision is None && delta.full is Some ==> get(after, tag) is None
            &&& delta.revision is None && delta.full is None ==> get(after, tag) == get(
                revisions,
                tag,
            )
            &&& get(after, other) == get(revisions, other)
        }),
{
    lemma_cut(revisions, tag);
    if let Some(r) = delta.revision {
        lemma_put(revisions, tag, r@);
    }
}

/// What a node knows of the users of a list: of each uuid the fingerprint of the last user with
/// it, and nothing of others.
pub proof fn law_fingerprints_of_users(
    prints: Seq<(Seq<char>, u64)>,
    users: Seq<CoreUser>,
    uuid: Seq<char>,
)
    ensures
        get(prints_put(prints, users), uuid) == (match last_named(users, uuid) {
            Some(user) => Some(print_of(user)),
            None => get(prints, uuid),
        }),
        get(prints_of(users), uuid) == (match last_named(users, uuid) {
            Some(user) => Some(print_of(user)),
            None => None,
        }),
        distinct(prints) ==> distinct(prints_put(prints, users)),
    decreases users.len(),
{
    let none = Seq::<(Seq<char>, u64)>::empty();
    lemma_prints_put(prints, users, uuid);
    lemma_prints_put(none, users, uuid);
    lemma_find(none, uuid);
}

proof fn lemma_prints_put(
    prints: Seq<(Seq<char>, u64)>,
    users: Seq<CoreUser>,
    uuid: Seq<char>,
)
    ensures
        get(prints_put(prints, users), uuid) == (match last_named(users, uuid) {
            Some(user) => Some(print_of(user)),
            None => get(prints, uuid),
        }),
        distinct(prints) ==> distinct(prints_put(prints, users)),
    decreases users.len(),
{
    if users.len() > 0 {
        let init = users.subrange(0, users.len() - 1);
        let last = users[users.len() - 1];
        lemma_prints_put(prints, init, uuid);
        lemma_put(prints_put(prints, init), last.uuid@, print_of(last));
    }
}

/// What a node knows of users after a change without a full list: nothing of deleted ones, of
/// others what updated them last, or else what was added last, or else what it knew.
pub proof fn law_fingerprints_after_change(
    prints: Seq<(Seq<char>, u64)>,
    delta: CoreUserDelta,
    uuid: Seq<char>,
)
    requires
        distinct(prints),
    ensures
        delta.full matches Some(full) ==> prints_delta(prints, delta) == prints_of(full@),
        delta.full is None ==> get(prints_delta(prints, delta), uuid) == (if listed(
            delta.deleted@,
            uuid,
        ) {
            None
        } else {
            match (last_named(delta.updated@, uuid), last_named(delta.added@, uuid)) {
                (Some(user), _) => Some(print_of(user)),
                (None, Some(user)) => Some(print_of(user)),
                (None, None) => get(prints, uuid),
            }
        }),
{
    let a = prints_put(prints, delta.added@);
    let b = prints_put(a, delta.updated@);
    lemma_prints_put(prints, delta.added@, uuid);
    lemma_prints_put(a, delta.updated@, uuid);
    lemma_prints_cut(b, delta.deleted@, uuid);
}

proof fn lemma_prints_cut(
    prints: Seq<(Seq<char>, u64)>,
    uuids: Seq<String>,
    uuid: Seq<char>,
)
    requires
        distinct(prints),
    ensures
        distinct(prints_cut(prints, uuids)),
        get(prints_cut(prints, uuids), uuid) == (if listed(uuids, uuid) {
            None
        } else {
            get(prints, uuid)
        }),
    decreases uuids.len(),
{
    if uuids.len() > 0 {
        let init = uuids.subrange(0, uuids.len() - 1);
        let last = uuids[uuids.len() - 1];
        lemma_prints_cut(prints, init, uuid);
        lemma_cut(prints_cut(prints, init), last@);
        if listed(init, uuid) {
            let k = choose|k: int| 0 <= k < init.len() && (#[trigger] init[k])@ == uuid;
            assert(uuids[k]@ == uuid);
        }
        if listed(uuids, uuid) && last@ != uuid {
            let k = choose|k: int| 0 <= k < uuids.len() && (#[trigger] uuids[k])@ == uuid;
            assert(init[k]@ == uuid);
        }
        if last@ == uuid {
            assert(listed(uuids, uuid));
        }
    }
}

/// A node knows the users of an inbound where it knows of each uuid the fingerprint of the last
/// user with it, and of no other uuid anything.
pub proof fn law_known_users(m: ServiceModel, inbound: InboundConfig, uuid: Seq<char>)
    requires
        users_known(m, inbound),
    ensures
        get(m.prints, inbound.tag@) is Some,
        get(get(m.prints, inbound.tag@)->0, uuid) == (match last_named(inbound.users@, uuid) {
            Some(user) => Some(print_of(user)),
            None => None,
        }),
{
    law_fingerprints_of_users(Seq::empty(), inbound.users@, uuid);
    let prints = get(m.prints, inbound.tag@)->0;
    assert(get(prints, uuid) == get(prints_of(inbound.users@), uuid));
}

/// A change of users that is taken is known under its tag, and listeners stay.
pub proof fn law_taken_change_is_known(m: ServiceModel, tag: Seq<char>, delta: CoreUserDelta)
    ensures
        ({
            let after = delta_taken(m, tag, delta);
            let before = match get(m.prints, tag) {
                Some(prints) => prints,
                None => Seq::empty(),
            };
            &&& get(after.prints, tag) == Some(prints_delta(before, delta))
            &&& after.listeners == m.listeners
        }),
{
    let before = match get(m.prints, tag) {
        Some(prints) => prints,
        None => Seq::empty(),
    };
    lemma_put(m.prints, tag, prints_delta(before, delta));
}

/// A connection to a target may take as many seconds as are set, or else as the policy says, but
/// at least one and at most sixty.
pub proof fn law_connect_timeout(text: String, default: u64, n: nat)
    requires
        n <= u64::MAX,
    ensures
        trim(text@) == decimal(n) && 1 <= n <= 60 ==> connect_timeout(Some(text), default) == n,
        trim(text@) == decimal(n) && n > 60 ==> connect_timeout(Some(text), default) == 60,
        trim(text@) == decimal(n) && n == 0 ==> connect_timeout(Some(text), default)
            == connect_timeout(None, default),
        parse_unsigned(trim(text@), 10, u64::MAX as nat) is None ==> connect_timeout(
            Some(text),
            default,
        ) == connect_timeout(None, default),
        1 <= default <= 60 ==> connect_timeout(None, default) == default,
        default == 0 ==> connect_timeout(None, default) == 1,
        default > 60 ==> connect_timeout(None, default) == 60,
{
    crate::text_laws::law_number_reads_back(n, 10, u64::MAX as nat);
}

/// A time limit of zero counts as one, and every other as it is.
pub proof fn law_positive(n: u64)
    ensures
        n == 0 ==> positive(n) == 1,
        n > 0 ==> positive(n) == n,
{
}

/// A node begins where its configuration is valid and its listeners are not in the way of each
/// other. It has the parts of the configuration but the users, no listeners and no revisions yet,
/// and the time limits of its policy.
pub proof fn law_start(
    config: CoreConfig,
    validation: Result<(), ValidationError>,
    resolved: Seq<Result<SocketAddress, CoreError>>,
    setting: Option<String>,
    r: Result<StartedService, CoreServiceError>,
)
    requires
        started(config, validation, resolved, setting, r),
    ensures
        r is Ok <==> validation is Ok && accepted(config.inbounds@, resolved) is Ok,
        r matches Err(e) ==> e is InvalidConfig,
        r matches Ok(begun) ==> {
            let kept = begun.service.config;
            &&& kept.instance_id@ == config.instance_id@
            &&& kept.log_level@ == config.log_level@
            &&& kept.inbounds@.len() == config.inbounds@.len()
            &&& forall|i: int|
                0 <= i < kept.inbounds@.len() ==> (#[trigger] kept.inbounds@[i]).users@.len() == 0
            &&& begun.service.listeners@.len() == 0
            &&& !begun.service.stopped
            &&& begun.timeouts.connection_idle_secs >= 1 && begun.timeouts.uplink_only_secs >= 1
                && begun.timeouts.downlink_only_secs >= 1 && begun.timeouts.sniffing_cache_millis
                >= 1
            &&& config.policy.connection_idle_secs > 0 ==> begun.timeouts.connection_idle_secs
                == config.policy.connection_idle_secs
            &&& config.policy.uplink_only_secs > 0 ==> begun.timeouts.uplink_only_secs
                == config.policy.uplink_only_secs
            &&& config.policy.downlink_only_secs > 0 ==> begun.timeouts.downlink_only_secs
                == config.policy.downlink_only_secs
            &&& config.policy.sniffing_cache_millis > 0 ==> begun.timeouts.sniffing_cache_millis
                == config.policy.sniffing_cache_millis
            &&& setting is None && 1 <= config.policy.connect_timeout_secs <= 60
                ==> begun.timeouts.connect_secs == config.policy.connect_timeout_secs
        },
{
    if let Ok(begun) = r {
        assert(begun.service.listeners@.len() == begun.service@.listeners.len());
    }
}

/// One more inbound is one more that runs over QUIC where it does, and none more where not.
pub proof fn law_quic_count(inbounds: Seq<InboundConfig>, inbound: InboundConfig)
    ensures
        quic_count(Seq::empty()) == 0,
        quic_count(inbounds.push(inbound)) == quic_count(inbounds) + if over_quic(inbound) {
            1nat
        } else {
            0
        },
{
    assert(inbounds.push(inbound).subrange(0, inbounds.len() as int) =~= inbounds);
}

/// What a node begins with knows the users of its last inbound with each tag.
pub proof fn law_first_fingerprints(
    inbounds: Seq<InboundConfig>,
    inbound: InboundConfig,
    other: Seq<char>,
)
    requires
        other != inbound.tag@,
    ensures
        get(inbound_prints(inbounds.push(inbound)), inbound.tag@) == Some(
            prints_of(inbound.users@),
        ),
        get(inbound_prints(inbounds.push(inbound)), other) == get(inbound_prints(inbounds), other),
{
    assert(inbounds.push(inbound).subrange(0, inbounds.len() as int) =~= inbounds);
    lemma_put(inbound_prints(inbounds), inbound.tag@, prints_of(inbound.users@));
}

/// Fingerprints are the same where each uuid has the same one, or none.
pub proof fn law_same_fingerprints(
    a: Seq<(Seq<char>, u64)>,
    b: Seq<(Seq<char>, u64)>,
    uuid: Seq<char>,
)
    ensures
        get(a, uuid) != get(b, uuid) ==> !same_prints(a, b),
        same_prints(a, a),
        same_prints(a, b) ==> same_prints(b, a),
{
    if same_prints(a, b) {
        assert(get(a, uuid) == get(b, uuid));
        assert forall|u: Seq<char>| #[trigger] get(b, u) == get(a, u) by {
            assert(get(a, u) == get(b, u));
        }
    }
}

} // verus!
