//! A running node: its listeners, and how its users and routes change while it runs.

use vstd::prelude::*;

use crate::address::SocketAddress;
use crate::config::{CoreConfig, InboundConfig, Protocol};
use crate::error::CoreError;
use crate::fingerprints::{
    inbound_prints, prints_delta, prints_of, prints_view, same_prints,
    user_fingerprints_for_inbounds, UserFingerprintState,
};
use crate::listener_binds::{
    accepted, quic_count, quic_listener_count, validate_unique_listener_binds, ValidationError,
};
use crate::service_config::{
    config_alike_but_users, config_eq_without_users, config_eq_without_users_routes_and_outbounds,
    config_rest_alike, config_without_users, connect_timeout, has_no_users, positive, timeouts,
    Timeouts,
};
use crate::service_error::CoreServiceError;
use crate::table::{
    cut, find, get, lemma_find, lemma_find_at, lemma_find_none, lemma_mapped, lemma_put, mapped,
    put, Table,
};
use crate::text::{same_text, text_view};
use crate::user::CoreUserDelta;

verus! {

/// A listener: the inbound that it is for, and where it listens.
#[derive(Debug, PartialEq, Eq)]
pub struct ListenerStatus {
    pub tag: String,
    pub protocol: Protocol,
    pub local_addr: SocketAddress,
}

impl Clone for ListenerStatus {
    fn clone(&self) -> (r: ListenerStatus)
        ensures
            r == *self,
    {
        ListenerStatus {
            tag: self.tag.clone(),
            protocol: self.protocol,
            local_addr: self.local_addr,
        }
    }
}

/// Something that is to be done to a listener, with what an inbound of the new configuration says.
#[derive(Clone, Copy, Debug, PartialEq, Eq, Structural)]
pub enum UpdateAction {
    ReplaceUsers { listener: usize, inbound: usize },
    ReplaceRoutes { listener: usize, inbound: usize },
}

/// What a node knows of its listeners and their users: the listeners under their tags, and for
/// each tag the revision and the fingerprints of its users.
#[verifier::ext_equal]
pub struct ServiceModel {
    pub listeners: Seq<(Seq<char>, ListenerStatus)>,
    pub revisions: Seq<(Seq<char>, Seq<char>)>,
    pub prints: Seq<(Seq<char>, Seq<(Seq<char>, u64)>)>,
}

/// A listener under its tag.
pub open spec fn listener_entry() -> spec_fn(ListenerStatus) -> (Seq<char>, ListenerStatus) {
    |status: ListenerStatus| (status.tag@, status)
}

/// Whether the users of an inbound are those that its listener has.
pub open spec fn users_known(m: ServiceModel, inbound: InboundConfig) -> bool {
    match get(m.prints, inbound.tag@) {
        Some(prints) => same_prints(prints, prints_of(inbound.users@)),
        None => false,
    }
}

/// What a node knows and has done once the users of one more inbound are brought up to date.
pub open spec fn users_step(
    m: ServiceModel,
    done: Seq<UpdateAction>,
    inbound: InboundConfig,
    at: int,
) -> (ServiceModel, Seq<UpdateAction>) {
    let listener = find(m.listeners, inbound.tag@);
    if listener < 0 || users_known(m, inbound) {
        (m, done)
    } else {
        (
            ServiceModel {
                listeners: m.listeners,
                revisions: cut(m.revisions, inbound.tag@),
                prints: put(m.prints, inbound.tag@, prints_of(inbound.users@)),
            },
            done.push(
                UpdateAction::ReplaceUsers { listener: listener as usize, inbound: at as usize },
            ),
        )
    }
}

/// What has been done once the routes of one more inbound are brought up to date.
pub open spec fn routes_step(
    m: ServiceModel,
    done: Seq<UpdateAction>,
    inbound: InboundConfig,
    at: int,
) -> Seq<UpdateAction> {
    let listener = find(m.listeners, inbound.tag@);
    if listener < 0 {
        done
    } else {
        done.push(UpdateAction::ReplaceRoutes { listener: listener as usize, inbound: at as usize })
    }
}

/// What a node knows and does once inbounds are brought up to date one by one.
pub open spec fn updated(
    m: ServiceModel,
    inbounds: Seq<InboundConfig>,
    users: bool,
    routes: bool,
) -> (ServiceModel, Seq<UpdateAction>)
    decreases inbounds.len(),
{
    if inbounds.len() == 0 {
        (m, Seq::empty())
    } else {
        let n = inbounds.len() - 1;
        let (m1, done1) = updated(m, inbounds.subrange(0, n), users, routes);
        let (m2, done2) = if users {
            users_step(m1, done1, inbounds[n], n)
        } else {
            (m1, done1)
        };
        if routes {
            (m2, routes_step(m2, done2, inbounds[n], n))
        } else {
            (m2, done2)
        }
    }
}

/// Why a change of users is refused, where it is.
pub open spec fn refusal(m: ServiceModel, tag: Seq<char>, delta: CoreUserDelta) -> Option<
    Seq<char>,
> {
    if find(m.listeners, tag) < 0 {
        Some("unknown inbound node_tag "@ + tag)
    } else if delta.full is Some {
        None
    } else {
        match delta.base_revision {
            None => None,
            Some(base) => match get(m.revisions, tag) {
                Some(current) => if current == base@ {
                    None
                } else {
                    Some(
                        "revision mismatch for inbound "@ + tag + ": current "@ + current
                            + ", base "@ + base@,
                    )
                },
                None => Some(
                    "revision mismatch for inbound "@ + tag + ": current <missing>, base "@ + base@
                        + "; full snapshot required"@,
                ),
            },
        }
    }
}

/// The fingerprints of the users of a tag; none where there are none.
pub open spec fn prints_under(m: ServiceModel, tag: Seq<char>) -> Seq<(Seq<char>, u64)> {
    match get(m.prints, tag) {
        Some(prints) => prints,
        None => Seq::empty(),
    }
}

/// The revisions after a change of users that was taken: the one that the change brings, or none
/// after a full list that brings none.
pub open spec fn revisions_after(
    revisions: Seq<(Seq<char>, Seq<char>)>,
    tag: Seq<char>,
    delta: CoreUserDelta,
) -> Seq<(Seq<char>, Seq<char>)> {
    match delta.revision {
        Some(revision) => put(revisions, tag, revision@),
        None => if delta.full is Some {
            cut(revisions, tag)
        } else {
            revisions
        },
    }
}

/// What a node knows after a change of users that it took.
pub open spec fn delta_taken(
    m: ServiceModel,
    tag: Seq<char>,
    delta: CoreUserDelta,
) -> ServiceModel {
    ServiceModel {
        listeners: m.listeners,
        revisions: revisions_after(m.revisions, tag, delta),
        prints: put(m.prints, tag, prints_delta(prints_under(m, tag), delta)),
    }
}

/// A running node. The configuration that it keeps has no users: those are with the listeners.
#[derive(Debug)]
pub struct CoreService {
    pub config: CoreConfig,
    pub listeners: Vec<ListenerStatus>,
    pub user_revisions: Table<String, String>,
    pub user_fingerprints: Table<String, UserFingerprintState>,
    pub stopped: bool,
}

impl View for CoreService {
    type V = ServiceModel;

    open spec fn view(&self) -> ServiceModel {
        ServiceModel {
            listeners: self.listeners@.map_values(listener_entry()),
            revisions: mapped(self.user_revisions@, text_view()),
            prints: mapped(self.user_fingerprints@, prints_view()),
        }
    }
}

/// What a node begins with: itself without listeners, its time limits, and the number of its
/// listeners over QUIC where there are any.
#[derive(Debug)]
pub struct StartedService {
    pub service: CoreService,
    pub timeouts: Timeouts,
    pub quic_listeners: Option<usize>,
}

/// What starting a node comes to.
pub open spec fn started(
    config: CoreConfig,
    validation: Result<(), ValidationError>,
    resolved: Seq<Result<SocketAddress, CoreError>>,
    connect_setting: Option<String>,
    r: Result<StartedService, CoreServiceError>,
) -> bool {
    match validation {
        Err(e) => r == Err::<StartedService, CoreServiceError>(CoreServiceError::InvalidConfig(e)),
        Ok(_) => match accepted(config.inbounds@, resolved) {
            Err(message) => match r {
                Err(CoreServiceError::InvalidConfig(e)) => e.message@ == message,
                _ => false,
            },
            Ok(_) => match r {
                Err(_) => false,
                Ok(begun) => {
                    &&& begun.service.wf()
                    &&& config_alike_but_users(config, begun.service.config)
                    &&& begun.service@.listeners.len() == 0
                    &&& begun.service@.revisions.len() == 0
                    &&& !begun.service.stopped
                    &&& begun.timeouts.connect_secs == connect_timeout(
                        connect_setting,
                        config.policy.connect_timeout_secs,
                    )
                    &&& 1 <= begun.timeouts.connect_secs <= 60
                    &&& begun.timeouts.connection_idle_secs == positive(
                        config.policy.connection_idle_secs,
                    )
                    &&& begun.timeouts.uplink_only_secs == positive(config.policy.uplink_only_secs)
                    &&& begun.timeouts.downlink_only_secs == positive(
                        config.policy.downlink_only_secs,
                    )
                    &&& begun.timeouts.sniffing_cache_millis == positive(
                        config.policy.sniffing_cache_millis,
                    )
                    &&& match begun.quic_listeners {
                        Some(n) => n == quic_count(config.inbounds@) && n > 0,
                        None => quic_count(config.inbounds@) == 0,
                    }
                },
            },
        },
    }
}

impl CoreService {
    /// No tag has two revisions or two sets of fingerprints, and no users are kept.
    pub open spec fn wf(&self) -> bool {
        self.user_revisions.wf() && self.user_fingerprints.wf() && has_no_users(self.config)
    }

    /// Starts a node: the configuration must be valid, and its listeners must not be in the way
    /// of each other. The listeners themselves come later, one by one.
    pub fn start(
        config: &CoreConfig,
        validation: Result<(), ValidationError>,
        resolved: &Vec<Result<SocketAddress, CoreError>>,
        connect_setting: Option<String>,
    ) -> (r: Result<StartedService, CoreServiceError>)
        requires
            config.inbounds@.len() == resolved@.len(),
        ensures
            started(*config, validation, resolved@, connect_setting, r),
            r is Ok ==> r->Ok_0.service@.prints == inbound_prints(config.inbounds@),
    {
        if let Err(e) = validation {
            return Err(CoreServiceError::InvalidConfig(e));
        }
        if let Err(e) = validate_unique_listener_binds(&config.inbounds, resolved) {
            return Err(CoreServiceError::InvalidConfig(e));
        }
        let limits = timeouts(&config.policy, connect_setting);
        let user_fingerprints = user_fingerprints_for_inbounds(&config.inbounds);
        let count: usize = quic_listener_count(&config.inbounds);
        let service = CoreService {
            config: config_without_users(config),
            listeners: Vec::new(),
            user_revisions: Table::new(),
            user_fingerprints,
            stopped: false,
        };
        Ok(
            StartedService {
                service,
                timeouts: limits,
                quic_listeners: if count > 0 {
                    Some(count)
                } else {
                    None
                },
            },
        )
    }

    /// Adds the listener of an inbound, once it listens.
    pub fn listener_started(&mut self, inbound: &InboundConfig, local_addr: SocketAddress)
        requires
            old(self).wf(),
        ensures
            final(self).wf(),
            final(self).config == old(self).config,
            final(self).stopped == old(self).stopped,
            final(self)@.revisions == old(self)@.revisions,
            final(self)@.prints == old(self)@.prints,
            final(self).listeners@.len() == old(self).listeners@.len() + 1,
            final(self).listeners@.subrange(0, old(self).listeners@.len() as int)
                == old(self).listeners@,
            final(self).listeners@.last().tag@ == inbound.tag@,
            final(self).listeners@.last().protocol == inbound.protocol,
            final(self).listeners@.last().local_addr == local_addr,
    {
        let ghost before = self.listeners@;
        self.listeners.push(
            ListenerStatus { tag: inbound.tag.clone(), protocol: inbound.protocol, local_addr },
        );
        assert(self.listeners@.subrange(0, before.len() as int) =~= before);
    }

    /// The listeners, in order.
    pub fn listeners(&self) -> (r: Vec<ListenerStatus>)
        ensures
            r@ == self.listeners@,
    {
        let mut out: Vec<ListenerStatus> = Vec::new();
        let mut i: usize = 0;
        while i < self.listeners.len()
            invariant
                i <= self.listeners@.len(),
                out@ == self.listeners@.subrange(0, i as int),
            decreases self.listeners.len() - i,
        {
            out.push(self.listeners[i].clone());
            i += 1;
            assert(out@ =~= self.listeners@.subrange(0, i as int));
        }
        assert(out@ =~= self.listeners@);
        out
    }

    /// Whether a configuration differs from the running one in users at most.
    pub fn can_update_users(&self, config: &CoreConfig) -> (r: bool)
        ensures
            r == config_alike_but_users(self.config, *config),
    {
        config_eq_without_users(&self.config, config)
    }

    /// Whether a configuration differs from the running one in users, routes and outbounds at
    /// most.
    pub fn can_update_routes(&self, config: &CoreConfig) -> (r: bool)
        ensures
            r == config_rest_alike(self.config, *config),
    {
        config_eq_without_users_routes_and_outbounds(&self.config, config)
    }

    /// The first listener with a tag.
    fn listener_of(&self, tag: &str) -> (r: Option<usize>)
        ensures
            match r {
                Some(i) => i == find(self@.listeners, tag@) && i < self.listeners@.len(),
                None => find(self@.listeners, tag@) < 0,
            },
    {
        let ghost entries = self@.listeners;
        let mut i: usize = 0;
        while i < self.listeners.len()
            invariant
                i <= self.listeners@.len(),
                entries == self.listeners@.map_values(listener_entry()),
                entries == self@.listeners,
                forall|k: int| 0 <= k < i ==> #[trigger] entries[k].0 != tag@,
            decreases self.listeners.len() - i,
        {
            assert(entries[i as int].0 == self.listeners@[i as int].tag@);
            if same_text(self.listeners[i].tag.as_str(), tag) {
                proof {
                    lemma_find_at(entries, tag@, i as int);
                }
                return Some(i);
            }
            i += 1;
        }
        proof {
            lemma_find_none(entries, tag@);
        }
        None
    }

    /// Brings the users of one inbound up to date.
    fn update_inbound_users(
        &mut self,
        actions: &mut Vec<UpdateAction>,
        inbound: &InboundConfig,
        at: usize,
    )
        requires
            old(self).wf(),
        ensures
            final(self).wf(),
            final(self).config == old(self).config,
            final(self).listeners == old(self).listeners,
            final(self).stopped == old(self).stopped,
            (final(self)@, final(actions)@) == users_step(
                old(self)@,
                old(actions)@,
                *inbound,
                at as int,
            ),
    {
        let listener = match self.listener_of(inbound.tag.as_str()) {
            Some(i) => i,
            None => {
                return;
            },
        };
        let prints = UserFingerprintState::from_users(&inbound.users);
        proof {
            lemma_mapped(self.user_fingerprints@, prints_view());
            lemma_mapped(self.user_revisions@, text_view());
        }
        let known = match self.user_fingerprints.get(&inbound.tag) {
            Some(current) => current.same(&prints),
            None => false,
        };
        if !known {
            actions.push(UpdateAction::ReplaceUsers { listener, inbound: at });
            self.user_revisions.remove(&inbound.tag);
            self.user_fingerprints.insert(inbound.tag.clone(), prints);
        }
    }

    /// Brings the inbounds of a configuration up to date, one by one.
    fn update_inbounds(
        &mut self,
        inbounds: &Vec<InboundConfig>,
        users: bool,
        routes: bool,
    ) -> (r: Vec<UpdateAction>)
        requires
            old(self).wf(),
        ensures
            final(self).wf(),
            final(self).config == old(self).config,
            final(self).listeners == old(self).listeners,
            final(self).stopped == old(self).stopped,
            (final(self)@, r@) == updated(old(self)@, inbounds@, users, routes),
            !users ==> final(self)@ == old(self)@,
    {
        let mut actions: Vec<UpdateAction> = Vec::new();
        let ghost start = self@;
        let mut i: usize = 0;
        assert(inbounds@.subrange(0, 0) =~= Seq::<InboundConfig>::empty());
        while i < inbounds.len()
            invariant
                i <= inbounds@.len(),
                self.wf(),
                start == old(self)@,
                self.config == old(self).config,
                self.listeners == old(self).listeners,
                self.stopped == old(self).stopped,
                (self@, actions@) == updated(
                    start,
                    inbounds@.subrange(0, i as int),
                    users,
                    routes,
                ),
                !users ==> self@ == start,
            decreases inbounds.len() - i,
        {
            let ghost longer = inbounds@.subrange(0, i + 1);
            assert(longer.subrange(0, longer.len() - 1) =~= inbounds@.subrange(0, i as int));
            assert(longer[longer.len() - 1] == inbounds@[i as int]);
            if users {
                self.update_inbound_users(&mut actions, &inbounds[i], i);
            }
            if routes {
                if let Some(listener) = self.listener_of(inbounds[i].tag.as_str()) {
                    actions.push(UpdateAction::ReplaceRoutes { listener, inbound: i });
                }
            }
            assert((self@, actions@) == updated(start, longer, users, routes));
            i += 1;
        }
        assert(inbounds@.subrange(0, inbounds@.len() as int) =~= inbounds@);
        actions
    }

    /// Brings the users up to date. Only a listener whose users have changed gets new ones.
    pub fn update_users(&mut self, config: &CoreConfig) -> (r: Vec<UpdateAction>)
        requires
            old(self).wf(),
        ensures
            final(self).wf(),
            config_alike_but_users(*config, final(self).config),
            final(self).listeners == old(self).listeners,
            final(self).stopped == old(self).stopped,
            (final(self)@, r@) == updated(old(self)@, config.inbounds@, true, false),
    {
        let actions = self.update_inbounds(&config.inbounds, true, false);
        self.config = config_without_users(config);
        actions
    }

    /// Brings users and routes up to date. Every listener gets its routes; only one whose users
    /// have changed gets new users.
    pub fn update_routes_and_users(&mut self, config: &CoreConfig) -> (r: Vec<UpdateAction>)
        requires
            old(self).wf(),
        ensures
            final(self).wf(),
            config_alike_but_users(*config, final(self).config),
            final(self).listeners == old(self).listeners,
            final(self).stopped == old(self).stopped,
            (final(self)@, r@) == updated(old(self)@, config.inbounds@, true, true),
    {
        let actions = self.update_inbounds(&config.inbounds, true, true);
        self.config = config_without_users(config);
        actions
    }

    /// Brings the routes up to date: every listener gets its routes, and users stay.
    pub fn update_routes(&mut self, config: &CoreConfig) -> (r: Vec<UpdateAction>)
        requires
            old(self).wf(),
        ensures
            final(self).wf(),
            config_alike_but_users(*config, final(self).config),
            final(self).listeners == old(self).listeners,
            final(self).stopped == old(self).stopped,
            final(self)@ == old(self)@,
            (final(self)@, r@) == updated(old(self)@, config.inbounds@, false, true),
    {
        let actions = self.update_inbounds(&config.inbounds, false, true);
        self.config = config_without_users(config);
        actions
    }

    /// Takes a change of users, or says why not. The listener that it is for is returned.
    pub fn apply_user_delta(
        &mut self,
        node_tag: &str,
        delta: &CoreUserDelta,
    ) -> (r: Result<usize, String>)
        requires
            old(self).wf(),
        ensures
            final(self).wf(),
            final(self).config == old(self).config,
            final(self).listeners == old(self).listeners,
            final(self).stopped == old(self).stopped,
            match refusal(old(self)@, node_tag@, *delta) {
                Some(message) => r is Err && r->Err_0@ == message && final(self)@ == old(self)@,
                None => {
                    &&& r is Ok
                    &&& r->Ok_0 == find(old(self)@.listeners, node_tag@)
                    &&& r->Ok_0 < old(self).listeners@.len()
                    &&& final(self)@ == delta_taken(old(self)@, node_tag@, *delta)
                },
            },
    {
        let tag: String = node_tag.to_owned();
        let listener = match self.listener_of(node_tag) {
            Some(i) => i,
            None => {
                let mut message = "unknown inbound node_tag ".to_owned();
                message.append(node_tag);
                return Err(message);
            },
        };
        proof {
            lemma_mapped(self.user_fingerprints@, prints_view());
            lemma_mapped(self.user_revisions@, text_view());
        }
        if delta.full.is_none() {
            if let Some(base) = &delta.base_revision {
                match self.user_revisions.get(&tag) {
                    Some(current) => {
                        if !same_text(current.as_str(), base.as_str()) {
                            let mut message = "revision mismatch for inbound ".to_owned();
                            message.append(node_tag);
                            message.append(": current ");
                            message.append(current.as_str());
                            message.append(", base ");
                            message.append(base.as_str());
                            return Err(message);
                        }
                    },
                    None => {
                        let mut message = "revision mismatch for inbound ".to_owned();
                        message.append(node_tag);
                        message.append(": current <missing>, base ");
                        message.append(base.as_str());
                        message.append("; full snapshot required");
                        return Err(message);
                    },
                }
            }
        }
        let ghost prints_before = self.user_fingerprints@;
        match self.user_fingerprints.position(&tag) {
            Some(i) => {
                let prints = self.user_fingerprints.value_mut(i);
                prints.apply_delta(delta);
                proof {
                    let now = self.user_fingerprints@[i as int].1;
                    lemma_find(prints_before, tag@);
                    lemma_put(prints_before, tag@, now);
                    assert(self.user_fingerprints@ =~= put(prints_before, tag@, now));
                    assert(mapped(self.user_fingerprints@, prints_view()) == put(
                        mapped(prints_before, prints_view()),
                        tag@,
                        now@,
                    ));
                }
            },
            None => {
                let mut prints = UserFingerprintState::new();
                prints.apply_delta(delta);
                let ghost now = prints;
                self.user_fingerprints.insert(tag.clone(), prints);
                assert(mapped(self.user_fingerprints@, prints_view()) == put(
                    mapped(prints_before, prints_view()),
                    tag@,
                    now@,
                ));
            },
        }
        assert(mapped(self.user_fingerprints@, prints_view()) == delta_taken(
            old(self)@,
            node_tag@,
            *delta,
        ).prints);
        if let Some(revision) = &delta.revision {
            self.user_revisions.insert(tag.clone(), revision.clone());
        } else if delta.full.is_some() {
            self.user_revisions.remove(&tag);
        }
        Ok(listener)
    }

    /// Stops the node; whether its listeners are still to be stopped, which they are once.
    pub fn stop(&mut self) -> (r: bool)
        ensures
            r == !old(self).stopped,
            final(self).stopped,
            final(self).config == old(self).config,
            final(self).listeners == old(self).listeners,
            final(self).user_revisions == old(self).user_revisions,
            final(self).user_fingerprints == old(self).user_fingerprints,
    {
        if self.stopped {
            return false;
        }
        self.stopped = true;
        true
    }
}

} // verus!
