//! Laws of a running node: what an update and a change of users do, and what they leave alone.

use vstd::prelude::*;

use crate::config::InboundConfig;
use crate::fingerprints::{inbound_prints, prints_delta, prints_of};
use crate::listener_binds::{over_quic, quic_count};
use crate::service::{delta_taken, refusal, updated, users_known, ServiceModel, UpdateAction};
use crate::table::{distinct, find, get, lemma_cut, lemma_put};
use crate::user::CoreUserDelta;

verus! {

/// Whether no two inbounds have one tag.
pub open spec fn distinct_tags(inbounds: Seq<InboundConfig>) -> bool {
    forall|i: int, j: int|
        0 <= i < j < inbounds.len() ==> (#[trigger] inbounds[i]).tag@ != (
        #[trigger] inbounds[j]).tag@
}

/// Whether a node has the users of all inbounds that it listens for.
pub open spec fn all_known(m: ServiceModel, inbounds: Seq<InboundConfig>) -> bool {
    forall|i: int|
        0 <= i < inbounds.len() ==> find(m.listeners, (#[trigger] inbounds[i]).tag@) < 0
            || users_known(m, inbounds[i])
}

/// Where a node has the users of all inbounds, updating them does nothing and changes nothing.
pub proof fn law_known_users_are_left_alone(m: ServiceModel, inbounds: Seq<InboundConfig>)
    requires
        all_known(m, inbounds),
    ensures
        updated(m, inbounds, true, false) == (m, Seq::<UpdateAction>::empty()),
    decreases inbounds.len(),
{
    if inbounds.len() > 0 {
        let n = inbounds.len() - 1;
        let rest = inbounds.subrange(0, n);
        assert forall|i: int| 0 <= i < rest.len() implies find(
            m.listeners,
            (#[trigger] rest[i]).tag@,
        ) < 0 || users_known(m, rest[i]) by {
            assert(rest[i] == inbounds[i]);
        }
        law_known_users_are_left_alone(m, rest);
        assert(find(m.listeners, inbounds[n].tag@) < 0 || users_known(m, inbounds[n]));
    }
}

/// An update keeps the listeners, and leaves alone the revision and the fingerprints of every tag
/// that none of its inbounds has.
pub proof fn law_update_leaves_other_tags(
    m: ServiceModel,
    inbounds: Seq<InboundConfig>,
    users: bool,
    routes: bool,
    tag: Seq<char>,
)
    requires
        distinct(m.revisions),
        forall|i: int| 0 <= i < inbounds.len() ==> (#[trigger] inbounds[i]).tag@ != tag,
    ensures
        ({
            let after = updated(m, inbounds, users, routes).0;
            &&& after.listeners == m.listeners
            &&& distinct(after.revisions)
            &&& get(after.revisions, tag) == get(m.revisions, tag)
            &&& get(after.prints, tag) == get(m.prints, tag)
        }),
    decreases inbounds.len(),
{
    if inbounds.len() > 0 {
        let n = inbounds.len() - 1;
        let rest = inbounds.subrange(0, n);
        assert forall|i: int| 0 <= i < rest.len() implies (#[trigger] rest[i]).tag@ != tag by {
            assert(rest[i] == inbounds[i]);
        }
        law_update_leaves_other_tags(m, rest, users, routes, tag);
        let earlier = updated(m, rest, users, routes).0;
        assert(inbounds[n].tag@ != tag);
        lemma_cut(earlier.revisions, inbounds[n].tag@);
        lemma_put(earlier.prints, inbounds[n].tag@, prints_of(inbounds[n].users@));
    }
}

/// After an update of users a node has the users of all inbounds, where no two have one tag.
pub proof fn law_update_is_remembered(m: ServiceModel, inbounds: Seq<InboundConfig>, routes: bool)
    requires
        distinct(m.revisions),
        distinct_tags(inbounds),
    ensures
        all_known(updated(m, inbounds, true, routes).0, inbounds),
    decreases inbounds.len(),
{
    if inbounds.len() > 0 {
        let n = inbounds.len() - 1;
        let rest = inbounds.subrange(0, n);
        assert forall|i: int, j: int| 0 <= i < j < rest.len() implies (#[trigger] rest[i]).tag@ != (
        #[trigger] rest[j]).tag@ by {
            assert(rest[i] == inbounds[i]);
            assert(rest[j] == inbounds[j]);
        }
        law_update_is_remembered(m, rest, routes);
        let earlier = updated(m, rest, true, routes).0;
        let after = updated(m, inbounds, true, routes).0;
        let last = inbounds[n];
        assert forall|i: int| 0 <= i < rest.len() implies (#[trigger] rest[i]).tag@ != last.tag@ by {
            assert(rest[i] == inbounds[i]);
            assert(inbounds[n].tag@ != inbounds[i].tag@);
        }
        law_update_leaves_other_tags(m, rest, true, routes, last.tag@);
        lemma_put(earlier.prints, last.tag@, prints_of(last.users@));
        assert(after.listeners == earlier.listeners);
        assert forall|i: int| 0 <= i < inbounds.len() implies find(
            after.listeners,
            (#[trigger] inbounds[i]).tag@,
        ) < 0 || users_known(after, inbounds[i]) by {
            if i < n {
                assert(rest[i] == inbounds[i]);
                assert(rest[i].tag@ != last.tag@);
                assert(get(after.prints, rest[i].tag@) == get(earlier.prints, rest[i].tag@));
            } else if find(earlier.listeners, last.tag@) >= 0 {
                if !users_known(earlier, last) {
                    assert(get(after.prints, last.tag@) == Some(prints_of(last.users@)));
                }
            }
        }
    }
}

/// Updating users twice with one configuration does nothing the second time, where no two of its
/// inbounds have one tag.
pub proof fn law_second_update_does_nothing(
    m: ServiceModel,
    inbounds: Seq<InboundConfig>,
    routes: bool,
)
    requires
        distinct(m.revisions),
        distinct_tags(inbounds),
    ensures
        ({
            let once = updated(m, inbounds, true, routes).0;
            updated(once, inbounds, true, false) == (once, Seq::<UpdateAction>::empty())
        }),
{
    law_update_is_remembered(m, inbounds, routes);
    law_known_users_are_left_alone(updated(m, inbounds, true, routes).0, inbounds);
}

/// The fingerprints that a node begins with are those of its inbounds, where no two have one tag.
proof fn lemma_inbound_prints(
    inbounds: Seq<InboundConfig>,
    at: int,
)
    requires
        distinct_tags(inbounds),
        0 <= at < inbounds.len(),
    ensures
        get(inbound_prints(inbounds), inbounds[at].tag@) == Some(
            prints_of(inbounds[at].users@),
        ),
    decreases inbounds.len(),
{
    let n = inbounds.len() - 1;
    let rest = inbounds.subrange(0, n);
    let last = inbounds[n];
    lemma_put(inbound_prints(rest), last.tag@, prints_of(last.users@));
    if at < n {
        assert forall|i: int, j: int| 0 <= i < j < rest.len() implies (#[trigger] rest[i]).tag@ != (
        #[trigger] rest[j]).tag@ by {
            assert(rest[i] == inbounds[i]);
            assert(rest[j] == inbounds[j]);
        }
        lemma_inbound_prints(rest, at);
        assert(rest[at] == inbounds[at]);
        assert(inbounds[at].tag@ != inbounds[n].tag@);
    }
}

/// A node that has just begun has the users of its inbounds: updating it with the configuration
/// that it began with does nothing, where no two inbounds have one tag.
pub proof fn law_fresh_node_knows_its_users(m: ServiceModel, inbounds: Seq<InboundConfig>)
    requires
        distinct_tags(inbounds),
        m.prints == inbound_prints(inbounds),
    ensures
        updated(m, inbounds, true, false) == (m, Seq::<UpdateAction>::empty()),
{
    assert forall|i: int| 0 <= i < inbounds.len() implies find(
        m.listeners,
        (#[trigger] inbounds[i]).tag@,
    ) < 0 || users_known(m, inbounds[i]) by {
        lemma_inbound_prints(inbounds, i);
    }
    law_known_users_are_left_alone(m, inbounds);
}

/// A change of users for one inbound leaves the revision and the fingerprints of every other alone.
pub proof fn law_delta_leaves_other_tags(
    m: ServiceModel,
    tag: Seq<char>,
    delta: CoreUserDelta,
    other: Seq<char>,
)
    requires
        distinct(m.revisions),
        other != tag,
    ensures
        ({
            let after = delta_taken(m, tag, delta);
            &&& after.listeners == m.listeners
            &&& get(after.revisions, other) == get(m.revisions, other)
            &&& get(after.prints, other) == get(m.prints, other)
        }),
{
    let prints = prints_delta(crate::service::prints_under(m, tag), delta);
    lemma_put(m.prints, tag, prints);
    lemma_cut(m.revisions, tag);
    if let Some(revision) = delta.revision {
        lemma_put(m.revisions, tag, revision@);
    }
}

/// A full list of users is never refused to an inbound that the node listens for.
pub proof fn law_full_list_is_taken(m: ServiceModel, tag: Seq<char>, delta: CoreUserDelta)
    requires
        find(m.listeners, tag) >= 0,
        delta.full is Some,
    ensures
        refusal(m, tag, delta) is None,
{
}

/// Changes of users follow each other: after one that sets a revision, a change that is based on a
/// revision and brings no full list is taken if and only if it is based on that one.
pub proof fn law_revisions_follow_each_other(
    m: ServiceModel,
    tag: Seq<char>,
    first: CoreUserDelta,
    second: CoreUserDelta,
)
    requires
        refusal(m, tag, first) is None,
        first.revision is Some,
        second.full is None,
        second.base_revision is Some,
    ensures
        refusal(delta_taken(m, tag, first), tag, second) is None <==> second.base_revision->0@
            == first.revision->0@,
{
    lemma_put(m.revisions, tag, first.revision->0@);
}

/// After a full list without a revision, a change that is based on a revision needs a full list.
pub proof fn law_unnamed_list_has_no_revision(
    m: ServiceModel,
    tag: Seq<char>,
    first: CoreUserDelta,
    second: CoreUserDelta,
)
    requires
        distinct(m.revisions),
        refusal(m, tag, first) is None,
        first.full is Some,
        first.revision is None,
        second.full is None,
        second.base_revision is Some,
    ensures
        refusal(delta_taken(m, tag, first), tag, second) is Some,
{
    lemma_cut(m.revisions, tag);
}

/// After a full list of users, an update of the inbound with that list does nothing.
pub proof fn law_full_list_is_remembered(
    m: ServiceModel,
    inbound: InboundConfig,
    delta: CoreUserDelta,
)
    requires
        delta.full is Some,
        delta.full->0@ == inbound.users@,
    ensures
        users_known(delta_taken(m, inbound.tag@, delta), inbound),
{
    let prints = prints_delta(crate::service::prints_under(m, inbound.tag@), delta);
    lemma_put(m.prints, inbound.tag@, prints);
}

/// Where an inbound listens over QUIC, the listeners over QUIC are counted.
pub proof fn law_quic_listeners_are_counted(inbounds: Seq<InboundConfig>, at: int)
    requires
        0 <= at < inbounds.len(),
        over_quic(inbounds[at]),
    ensures
        quic_count(inbounds) > 0,
    decreases inbounds.len(),
{
    let n = inbounds.len() - 1;
    if at < n {
        assert(inbounds.subrange(0, n)[at] == inbounds[at]);
        law_quic_listeners_are_counted(inbounds.subrange(0, n), at);
    }
}

} // verus!
