//! Reassembly of TUIC packets that arrive in fragments.

use vstd::prelude::*;

use crate::crypto::bytes_view;
use crate::error::{failure, CoreError, ErrorKind, ErrorModel};
use crate::table::{
    cut, distinct, find, get, holds, lemma_cut, lemma_find, lemma_mapped, lemma_put, mapped, put,
    Table, TableKey,
};
use crate::target::{SocksTarget, TargetModel};
use crate::text::same_text;
use crate::tuic::{invalid, target_view, PacketModel, UdpPacket};
use crate::wire::push_bytes;

verus! {

impl TableKey for (u16, u16) {
    fn same_key(&self, other: &(u16, u16)) -> (r: bool) {
        self.0 == other.0 && self.1 == other.1
    }

    fn copy_key(&self) -> (r: (u16, u16)) {
        (self.0, self.1)
    }
}

/// The fragments of one packet that have arrived.
#[derive(Debug)]
pub struct UdpFragmentSet {
    pub target: Option<SocksTarget>,
    pub parts: Vec<Option<Vec<u8>>>,
}

/// The mathematical value of the fragments of one packet.
#[verifier::ext_equal]
pub struct GroupModel {
    pub target: Option<TargetModel>,
    pub parts: Seq<Option<Seq<u8>>>,
}

/// The view of a fragment that may be missing.
pub open spec fn part_view() -> spec_fn(Option<Vec<u8>>) -> Option<Seq<u8>> {
    |part: Option<Vec<u8>>| bytes_view(part)
}

impl View for UdpFragmentSet {
    type V = GroupModel;

    open spec fn view(&self) -> GroupModel {
        GroupModel {
            target: target_view(self.target),
            parts: self.parts@.map_values(part_view()),
        }
    }
}

/// The view of the fragments of one packet.
pub open spec fn group_view() -> spec_fn(UdpFragmentSet) -> GroupModel {
    |set: UdpFragmentSet| set@
}

/// No fragments of a packet of `count` fragments.
pub open spec fn empty_group(count: nat) -> GroupModel {
    GroupModel { target: None, parts: Seq::new(count, |i: int| None::<Seq<u8>>) }
}

/// The fragments with another one, which may bring the target.
pub open spec fn filled(
    g: GroupModel,
    index: int,
    target: Option<TargetModel>,
    payload: Seq<u8>,
) -> GroupModel {
    GroupModel {
        target: if target is Some {
            target
        } else {
            g.target
        },
        parts: g.parts.update(index, Some(payload)),
    }
}

/// Whether all fragments of a packet have arrived, and its target.
pub open spec fn complete(g: GroupModel) -> bool {
    g.target is Some && forall|i: int| 0 <= i < g.parts.len() ==> #[trigger] g.parts[i] is Some
}

/// The fragments put together in order.
pub open spec fn joined(parts: Seq<Option<Seq<u8>>>) -> Seq<u8>
    decreases parts.len(),
{
    if parts.len() == 0 {
        Seq::empty()
    } else {
        joined(parts.subrange(0, parts.len() - 1)) + parts[parts.len() - 1]->0
    }
}

/// What a fragment completes, and the groups that wait for more fragments after it.
pub open spec fn pushed(groups: Seq<((u16, u16), GroupModel)>, p: PacketModel) -> (
    Result<Option<PacketModel>, ErrorModel>,
    Seq<((u16, u16), GroupModel)>,
) {
    let key = (p.assoc_id, p.packet_id);
    if p.fragment_total == 0 || p.fragment_id >= p.fragment_total {
        (Err(invalid("invalid tuic udp fragment index"@)), groups)
    } else if p.single() {
        (Ok(Some(p)), groups)
    } else {
        let g = match get(groups, key) {
            Some(g) => g,
            None => empty_group(p.fragment_total as nat),
        };
        if g.parts.len() != p.fragment_total {
            (Err(invalid("mismatched tuic udp fragment group"@)), cut(groups, key))
        } else if p.target is Some && g.target is Some && g.target != p.target {
            (Err(invalid("mismatched tuic udp fragment target"@)), cut(groups, key))
        } else {
            let next = filled(g, p.fragment_id as int, p.target, p.payload);
            if complete(next) {
                (
                    Ok(
                        Some(
                            PacketModel {
                                fragment_total: 1,
                                fragment_id: 0,
                                target: next.target,
                                payload: joined(next.parts),
                                ..p
                            },
                        ),
                    ),
                    cut(groups, key),
                )
            } else {
                (Ok(None), put(groups, key, next))
            }
        }
    }
}

/// Whether groups have distinct keys and each waits for something.
pub open spec fn waiting(groups: Seq<((u16, u16), GroupModel)>) -> bool {
    &&& distinct(groups)
    &&& forall|i: int| 0 <= i < groups.len() ==> !complete((#[trigger] groups[i]).1)
}

/// Pushing keeps groups distinct and waiting.
pub proof fn lemma_pushed_waiting(groups: Seq<((u16, u16), GroupModel)>, p: PacketModel)
    requires
        waiting(groups),
    ensures
        waiting(pushed(groups, p).1),
{
    let key = (p.assoc_id, p.packet_id);
    lemma_cut(groups, key);
    lemma_find(groups, key);
    let f = find(groups, key);
    if holds(groups, key) {
        assert forall|i: int| 0 <= i < cut(groups, key).len() implies !complete(
            (#[trigger] cut(groups, key)[i]).1,
        ) by {
            let j = if i < f { i } else { i + 1 };
            assert(cut(groups, key)[i] == groups[j]);
        }
    }
    let g = match get(groups, key) {
        Some(g) => g,
        None => empty_group(p.fragment_total as nat),
    };
    let next = filled(g, p.fragment_id as int, p.target, p.payload);
    lemma_put(groups, key, next);
    if !complete(next) {
        assert forall|i: int| 0 <= i < put(groups, key, next).len() implies !complete(
            (#[trigger] put(groups, key, next)[i]).1,
        ) by {
            if i < groups.len() && i != f {
                assert(put(groups, key, next)[i] == groups[i]);
            }
        }
    }
}

/// The fragments of all packets that are not complete yet.
#[derive(Debug)]
pub struct UdpFragmentStore {
    fragments: Table<(u16, u16), UdpFragmentSet>,
}

impl View for UdpFragmentStore {
    type V = Seq<((u16, u16), GroupModel)>;

    closed spec fn view(&self) -> Seq<((u16, u16), GroupModel)> {
        mapped(self.fragments@, group_view())
    }
}

/// The view of what a fragment completes.
pub open spec fn completed(r: Result<Option<UdpPacket>, CoreError>) -> Result<
    Option<PacketModel>,
    ErrorModel,
> {
    match r {
        Ok(Some(p)) => Ok(Some(p@)),
        Ok(None) => Ok(None),
        Err(e) => Err(e@),
    }
}

/// Whether two targets are the same.
fn same_target(a: &SocksTarget, b: &SocksTarget) -> (r: bool)
    ensures
        r == (a@ == b@),
{
    a.port == b.port && same_text(a.host.as_str(), b.host.as_str())
}

/// Whether a target differs from the one that is known.
fn differs(known: &Option<SocksTarget>, target: &Option<SocksTarget>) -> (r: bool)
    ensures
        r == (known is Some && target is Some && target_view(*known) != target_view(*target)),
{
    match (known, target) {
        (Some(a), Some(b)) => !same_target(a, b),
        _ => false,
    }
}

impl UdpFragmentSet {
    /// No fragments of a packet of `count` fragments.
    fn empty(count: usize) -> (r: UdpFragmentSet)
        ensures
            r@ == empty_group(count as nat),
    {
        let mut parts: Vec<Option<Vec<u8>>> = Vec::new();
        while parts.len() < count
            invariant
                parts@.len() <= count,
                forall|i: int| 0 <= i < parts@.len() ==> #[trigger] parts@[i] is None,
            decreases count - parts.len(),
        {
            parts.push(None);
        }
        let r = UdpFragmentSet { target: None, parts };
        assert(r@.parts =~= empty_group(count as nat).parts);
        r
    }

    /// Keeps a fragment, and the target that it brings.
    fn fill(&mut self, index: usize, target: Option<SocksTarget>, payload: Vec<u8>)
        requires
            index < old(self)@.parts.len(),
        ensures
            final(self)@ == filled(old(self)@, index as int, target_view(target), payload@),
    {
        if target.is_some() {
            self.target = target;
        }
        self.parts.set(index, Some(payload));
        assert(self@.parts =~= filled(
            old(self)@,
            index as int,
            target_view(target),
            payload@,
        ).parts);
    }

    /// Whether all fragments have arrived, and the target.
    fn is_complete(&self) -> (r: bool)
        ensures
            r == complete(self@),
    {
        if self.target.is_none() {
            return false;
        }
        let mut i: usize = 0;
        while i < self.parts.len()
            invariant
                i <= self.parts@.len(),
                forall|k: int| 0 <= k < i ==> #[trigger] self@.parts[k] is Some,
            decreases self.parts.len() - i,
        {
            if self.parts[i].is_none() {
                assert(self@.parts[i as int] is None);
                return false;
            }
            i += 1;
        }
        true
    }

    /// The fragments put together in order.
    fn join(&self) -> (r: Vec<u8>)
        requires
            complete(self@),
        ensures
            r@ == joined(self@.parts),
    {
        let mut payload: Vec<u8> = Vec::new();
        let mut i: usize = 0;
        while i < self.parts.len()
            invariant
                i <= self.parts@.len(),
                complete(self@),
                payload@ == joined(self@.parts.subrange(0, i as int)),
            decreases self.parts.len() - i,
        {
            let ghost longer = self@.parts.subrange(0, i + 1);
            assert(longer.subrange(0, longer.len() - 1) == self@.parts.subrange(0, i as int));
            assert(self@.parts[i as int] is Some);
            if let Some(part) = &self.parts[i] {
                push_bytes(&mut payload, part.as_slice());
            }
            i += 1;
        }
        assert(self@.parts.subrange(0, self@.parts.len() as int) == self@.parts);
        payload
    }
}

impl UdpFragmentStore {
    /// Every group waits for something.
    pub open spec fn wf(&self) -> bool {
        waiting(self@)
    }

    /// A store without fragments.
    pub fn new() -> (r: UdpFragmentStore)
        ensures
            r.wf(),
            r@ == Seq::<((u16, u16), GroupModel)>::empty(),
    {
        let r = UdpFragmentStore { fragments: Table::new() };
        assert(r@ =~= Seq::<((u16, u16), GroupModel)>::empty());
        r
    }

    /// Takes a fragment, and gives the packet that it completes; a packet that is whole passes
    /// through.
    pub fn push(&mut self, packet: UdpPacket) -> (r: Result<Option<UdpPacket>, CoreError>)
        requires
            old(self).wf(),
        ensures
            final(self).wf(),
            (completed(r), final(self)@) == pushed(old(self)@, packet@),
    {
        if packet.fragment_total == 0 || packet.fragment_id >= packet.fragment_total {
            return Err(failure(ErrorKind::InvalidData, "invalid tuic udp fragment index"));
        }
        if packet.is_single_fragment() {
            return Ok(Some(packet));
        }
        let ghost p = packet@;
        let key = (packet.assoc_id, packet.packet_id);
        let count: usize = packet.fragment_total as usize;
        let index: usize = packet.fragment_id as usize;
        proof {
            lemma_pushed_waiting(self@, p);
            lemma_mapped(self.fragments@, group_view());
            assert(key@ == key);
        }
        match self.fragments.position(&key) {
            None => {
                let mut set = UdpFragmentSet::empty(count);
                set.fill(index, packet.target, packet.payload);
                assert(!complete(set@)) by {
                    let other: int = if index == 0 { 1 } else { 0 };
                    assert(set@.parts[other] is None);
                }
                self.fragments.insert(key, set);
                Ok(None)
            },
            Some(i) => {
                if self.fragments.value_at(i).parts.len() != count {
                    self.fragments.remove_at(i);
                    return Err(
                        failure(ErrorKind::InvalidData, "mismatched tuic udp fragment group"),
                    );
                }
                if differs(&self.fragments.value_at(i).target, &packet.target) {
                    self.fragments.remove_at(i);
                    return Err(
                        failure(ErrorKind::InvalidData, "mismatched tuic udp fragment target"),
                    );
                }
                let ghost before = self.fragments@;
                let set = self.fragments.value_mut(i);
                set.fill(index, packet.target, packet.payload);
                let ghost next = self.fragments@[i as int].1;
                assert(self.fragments@ == put(before, key, next)) by {
                    lemma_find(before, key);
                }
                if !self.fragments.value_at(i).is_complete() {
                    return Ok(None);
                }
                let set = self.fragments.remove_at(i);
                assert(self.fragments@ =~= cut(before, key));
                let payload = set.join();
                Ok(
                    Some(
                        UdpPacket {
                            assoc_id: key.0,
                            packet_id: key.1,
                            fragment_total: 1,
                            fragment_id: 0,
                            target: set.target,
                            payload,
                        },
                    ),
                )
            },
        }
    }
}

impl Default for UdpFragmentStore {
    fn default() -> (r: UdpFragmentStore)
        ensures
            r.wf(),
            r@ == Seq::<((u16, u16), GroupModel)>::empty(),
    {
        UdpFragmentStore::new()
    }
}

/// The groups after taking fragments one after the other.
pub open spec fn pushed_all(
    groups: Seq<((u16, u16), GroupModel)>,
    fragments: Seq<PacketModel>,
) -> Seq<((u16, u16), GroupModel)>
    decreases fragments.len(),
{
    if fragments.len() == 0 {
        groups
    } else {
        let last = fragments[fragments.len() - 1];
        pushed(pushed_all(groups, fragments.subrange(0, fragments.len() - 1)), last).1
    }
}

/// Whether these are the fragments of one packet, each once, in whatever order.
pub open spec fn fragments_of(
    whole: PacketModel,
    pieces: Seq<Seq<u8>>,
    fragments: Seq<PacketModel>,
) -> bool {
    &&& whole.single()
    &&& whole.target is Some
    &&& whole.payload == joined(pieces.map_values(|piece: Seq<u8>| Some(piece)))
    &&& 2 <= pieces.len() <= 255
    &&& fragments.len() == pieces.len()
    &&& forall|k: int|
        0 <= k < fragments.len() ==> is_fragment(whole, pieces, #[trigger] fragments[k])
    &&& forall|k: int, l: int|
        0 <= k < l < fragments.len() ==> #[trigger] fragments[k].fragment_id
            != #[trigger] fragments[l].fragment_id
    &&& forall|i: int| 0 <= i < pieces.len() ==> #[trigger] arrives(fragments, i)
    &&& exists|k: int| 0 <= k < fragments.len() && (#[trigger] fragments[k]).target is Some
}

/// Whether a packet is a fragment of another.
pub open spec fn is_fragment(whole: PacketModel, pieces: Seq<Seq<u8>>, p: PacketModel) -> bool {
    &&& p.assoc_id == whole.assoc_id
    &&& p.packet_id == whole.packet_id
    &&& p.fragment_total == pieces.len()
    &&& p.fragment_id < pieces.len()
    &&& p.target is None || p.target == whole.target
    &&& p.payload == pieces[p.fragment_id as int]
}

/// Whether some fragment has the index.
pub open spec fn arrives(fragments: Seq<PacketModel>, i: int) -> bool {
    exists|k: int| 0 <= k < fragments.len() && (#[trigger] fragments[k]).fragment_id == i
}

/// The group of a packet after some of its fragments.
spec fn gathered(pieces: Seq<Seq<u8>>, fragments: Seq<PacketModel>, target: Option<TargetModel>) -> GroupModel {
    GroupModel {
        target: if exists|k: int|
            0 <= k < fragments.len() && (#[trigger] fragments[k]).target is Some {
            target
        } else {
            None
        },
        parts: Seq::new(
            pieces.len(),
            |i: int|
                if arrives(fragments, i) {
                    Some(pieces[i])
                } else {
                    None
                },
        ),
    }
}

/// Another fragment adds what it brings to the group.
proof fn lemma_gathered(
    whole: PacketModel,
    pieces: Seq<Seq<u8>>,
    fragments: Seq<PacketModel>,
    k: int,
)
    requires
        fragments_of(whole, pieces, fragments),
        0 <= k < fragments.len(),
    ensures
        gathered(pieces, fragments.subrange(0, k + 1), whole.target) == filled(
            gathered(pieces, fragments.subrange(0, k), whole.target),
            fragments[k].fragment_id as int,
            fragments[k].target,
            fragments[k].payload,
        ),
{
    let some = fragments.subrange(0, k);
    let more = fragments.subrange(0, k + 1);
    let p = fragments[k];
    let a = gathered(pieces, more, whole.target);
    let b = filled(
        gathered(pieces, some, whole.target),
        p.fragment_id as int,
        p.target,
        p.payload,
    );
    assert(is_fragment(whole, pieces, p));
    assert(more[k] == p);
    assert forall|m: int| 0 <= m < k implies #[trigger] more[m] == some[m] by {}
    assert forall|i: int| 0 <= i < pieces.len() implies #[trigger] a.parts[i] == b.parts[i] by {
        if arrives(some, i) {
            let m = choose|m: int| 0 <= m < some.len() && (#[trigger] some[m]).fragment_id == i;
            assert(more[m].fragment_id == i);
        }
        if i != p.fragment_id && arrives(more, i) {
            let m = choose|m: int| 0 <= m < more.len() && (#[trigger] more[m]).fragment_id == i;
            assert(some[m].fragment_id == i);
        }
    }
    assert(a.parts =~= b.parts);
    if exists|m: int| 0 <= m < some.len() && (#[trigger] some[m]).target is Some {
        let m = choose|m: int| 0 <= m < some.len() && (#[trigger] some[m]).target is Some;
        assert(more[m].target is Some);
    } else if p.target is None {
        assert forall|m: int| 0 <= m < more.len() implies (#[trigger] more[m]).target is None by {
            if m < k {
                assert(some[m].target is None);
            }
        }
    }
    assert(a.target == b.target);
}

/// After some fragments of a packet, but not all, the group holds what they brought.
proof fn lemma_gathering(
    groups: Seq<((u16, u16), GroupModel)>,
    whole: PacketModel,
    pieces: Seq<Seq<u8>>,
    fragments: Seq<PacketModel>,
    k: int,
)
    requires
        waiting(groups),
        !holds(groups, (whole.assoc_id, whole.packet_id)),
        fragments_of(whole, pieces, fragments),
        0 <= k < fragments.len(),
    ensures
        waiting(pushed_all(groups, fragments.subrange(0, k))),
        match get(pushed_all(groups, fragments.subrange(0, k)), (whole.assoc_id, whole.packet_id)) {
            Some(g) => k > 0 && g == gathered(pieces, fragments.subrange(0, k), whole.target),
            None => k == 0,
        },
    decreases k,
{
    let key = (whole.assoc_id, whole.packet_id);
    let some = fragments.subrange(0, k);
    if k > 0 {
        lemma_gathering(groups, whole, pieces, fragments, k - 1);
        let fewer = fragments.subrange(0, k - 1);
        assert(some.subrange(0, k - 1) == fewer);
        let before = pushed_all(groups, fewer);
        let p = fragments[k - 1];
        assert(is_fragment(whole, pieces, p));
        lemma_pushed_waiting(before, p);
        lemma_gathered(whole, pieces, fragments, k - 1);
        let g = match get(before, key) {
            Some(g) => g,
            None => empty_group(p.fragment_total as nat),
        };
        assert(g =~= gathered(pieces, fewer, whole.target));
        let next = filled(g, p.fragment_id as int, p.target, p.payload);
        assert(next == gathered(pieces, some, whole.target));
        let missing = fragments[k].fragment_id as int;
        assert(is_fragment(whole, pieces, fragments[k]));
        assert(!arrives(some, missing)) by {
            if arrives(some, missing) {
                let m = choose|m: int|
                    0 <= m < some.len() && (#[trigger] some[m]).fragment_id == missing;
                assert(fragments[m].fragment_id == fragments[k].fragment_id);
            }
        }
        assert(next.parts[missing] is None);
        assert(!complete(next));
        lemma_put(before, key, next);
    }
}

/// The fragments of a packet give nothing until the last one, and then the packet, in whatever
/// order they arrive.
pub proof fn law_fragments_are_reassembled(
    groups: Seq<((u16, u16), GroupModel)>,
    whole: PacketModel,
    pieces: Seq<Seq<u8>>,
    fragments: Seq<PacketModel>,
    k: int,
)
    requires
        waiting(groups),
        !holds(groups, (whole.assoc_id, whole.packet_id)),
        fragments_of(whole, pieces, fragments),
        0 <= k < fragments.len(),
    ensures
        pushed(pushed_all(groups, fragments.subrange(0, k)), fragments[k]).0 == Ok::<
            Option<PacketModel>,
            ErrorModel,
        >(
            if k + 1 == fragments.len() {
                Some(whole)
            } else {
                None
            },
        ),
        get(
            pushed_all(groups, fragments),
            (whole.assoc_id, whole.packet_id),
        ) is None,
{
    let key = (whole.assoc_id, whole.packet_id);
    let n = fragments.len() as int;
    let last = n - 1;
    lemma_gathering(groups, whole, pieces, fragments, k);
    lemma_gathering(groups, whole, pieces, fragments, last);
    assert(is_fragment(whole, pieces, fragments[k]));
    assert(is_fragment(whole, pieces, fragments[last]));
    assert(fragments.subrange(0, n) == fragments);
    lemma_gathered(whole, pieces, fragments, last);
    let all = gathered(pieces, fragments, whole.target);
    assert forall|i: int| 0 <= i < all.parts.len() implies #[trigger] all.parts[i] is Some by {
        assert(arrives(fragments, i));
    }
    assert(complete(all));
    assert(all.parts =~= pieces.map_values(|piece: Seq<u8>| Some(piece)));
    let before = pushed_all(groups, fragments.subrange(0, last));
    lemma_cut(before, key);
    if k < last {
        lemma_gathering(groups, whole, pieces, fragments, k + 1);
        let fewer = fragments.subrange(0, k);
        let some = fragments.subrange(0, k + 1);
        assert(some.subrange(0, k) == fewer);
        let state = pushed_all(groups, fewer);
        lemma_cut(state, key);
        let g = match get(state, key) {
            Some(g) => g,
            None => empty_group(pieces.len()),
        };
        assert(g =~= gathered(pieces, fewer, whole.target));
    }
}

/// A packet leaves the groups of all other packets as they are.
pub proof fn law_other_groups_stay(
    groups: Seq<((u16, u16), GroupModel)>,
    p: PacketModel,
    other: (u16, u16),
)
    requires
        waiting(groups),
        other != (p.assoc_id, p.packet_id),
    ensures
        get(pushed(groups, p).1, other) == get(groups, other),
{
    let key = (p.assoc_id, p.packet_id);
    lemma_cut(groups, key);
    let g = match get(groups, key) {
        Some(g) => g,
        None => empty_group(p.fragment_total as nat),
    };
    lemma_put(groups, key, filled(g, p.fragment_id as int, p.target, p.payload));
}

/// What a packet gives, and what it leaves of its group, is a matter of that group alone.
proof fn lemma_own_group_decides(
    a: Seq<((u16, u16), GroupModel)>,
    b: Seq<((u16, u16), GroupModel)>,
    p: PacketModel,
)
    requires
        waiting(a),
        waiting(b),
        get(a, (p.assoc_id, p.packet_id)) == get(b, (p.assoc_id, p.packet_id)),
    ensures
        pushed(a, p).0 == pushed(b, p).0,
        get(pushed(a, p).1, (p.assoc_id, p.packet_id)) == get(
            pushed(b, p).1,
            (p.assoc_id, p.packet_id),
        ),
{
    let key = (p.assoc_id, p.packet_id);
    lemma_cut(a, key);
    lemma_cut(b, key);
    let g = match get(a, key) {
        Some(g) => g,
        None => empty_group(p.fragment_total as nat),
    };
    let next = filled(g, p.fragment_id as int, p.target, p.payload);
    lemma_put(a, key, next);
    lemma_put(b, key, next);
}

/// The packets that belong to one group, in the order in which they arrive.
pub open spec fn of_group(packets: Seq<PacketModel>, key: (u16, u16)) -> Seq<PacketModel>
    decreases packets.len(),
{
    if packets.len() == 0 {
        Seq::empty()
    } else {
        let rest = of_group(packets.subrange(0, packets.len() - 1), key);
        let last = packets[packets.len() - 1];
        if (last.assoc_id, last.packet_id) == key {
            rest.push(last)
        } else {
            rest
        }
    }
}

/// The packets of a group that come before a packet of the group.
proof fn lemma_of_group(packets: Seq<PacketModel>, key: (u16, u16), i: int)
    requires
        0 <= i < packets.len(),
        (packets[i].assoc_id, packets[i].packet_id) == key,
    ensures
        ({
            let all = of_group(packets, key);
            let k = of_group(packets.subrange(0, i), key).len() as int;
            &&& k < all.len()
            &&& of_group(packets.subrange(0, i), key) == all.subrange(0, k)
            &&& all[k] == packets[i]
        }),
    decreases packets.len(),
{
    let n = packets.len() as int;
    let init = packets.subrange(0, n - 1);
    let all = of_group(packets, key);
    let k = of_group(packets.subrange(0, i), key).len() as int;
    if i < n - 1 {
        lemma_of_group(init, key, i);
        assert(init.subrange(0, i) =~= packets.subrange(0, i));
        assert(all.subrange(0, k) =~= of_group(init, key).subrange(0, k));
    } else {
        assert(all.subrange(0, k) =~= of_group(init, key));
    }
}

/// Packets of other groups make no difference to a group.
proof fn lemma_own_packets_decide(
    groups: Seq<((u16, u16), GroupModel)>,
    packets: Seq<PacketModel>,
    key: (u16, u16),
)
    requires
        waiting(groups),
    ensures
        waiting(pushed_all(groups, packets)),
        waiting(pushed_all(groups, of_group(packets, key))),
        get(pushed_all(groups, packets), key) == get(
            pushed_all(groups, of_group(packets, key)),
            key,
        ),
    decreases packets.len(),
{
    if packets.len() > 0 {
        let init = packets.subrange(0, packets.len() - 1);
        let last = packets[packets.len() - 1];
        lemma_own_packets_decide(groups, init, key);
        let a = pushed_all(groups, init);
        let own = of_group(init, key);
        let b = pushed_all(groups, own);
        lemma_pushed_waiting(a, last);
        if (last.assoc_id, last.packet_id) == key {
            lemma_pushed_waiting(b, last);
            lemma_own_group_decides(a, b, last);
            let more = of_group(packets, key);
            assert(more.subrange(0, more.len() - 1) =~= own);
        } else {
            law_other_groups_stay(a, last, key);
        }
    }
}

/// The fragments of a packet give nothing until the last one, and then the packet, in whatever
/// order they arrive and whatever arrives of other packets between them.
pub proof fn law_fragments_are_reassembled_among_others(
    groups: Seq<((u16, u16), GroupModel)>,
    whole: PacketModel,
    pieces: Seq<Seq<u8>>,
    packets: Seq<PacketModel>,
    i: int,
)
    requires
        waiting(groups),
        !holds(groups, (whole.assoc_id, whole.packet_id)),
        fragments_of(whole, pieces, of_group(packets, (whole.assoc_id, whole.packet_id))),
        0 <= i < packets.len(),
        packets[i].assoc_id == whole.assoc_id && packets[i].packet_id == whole.packet_id,
    ensures
        pushed(pushed_all(groups, packets.subrange(0, i)), packets[i]).0 == Ok::<
            Option<PacketModel>,
            ErrorModel,
        >(
            if of_group(
                packets.subrange(0, i),
                (whole.assoc_id, whole.packet_id),
            ).len() + 1 == pieces.len() {
                Some(whole)
            } else {
                None
            },
        ),
        get(pushed_all(groups, packets), (whole.assoc_id, whole.packet_id)) is None,
{
    let key = (whole.assoc_id, whole.packet_id);
    let fragments = of_group(packets, key);
    let before = packets.subrange(0, i);
    let k = of_group(before, key).len() as int;
    lemma_of_group(packets, key, i);
    lemma_own_packets_decide(groups, before, key);
    lemma_own_packets_decide(groups, packets, key);
    lemma_own_group_decides(
        pushed_all(groups, before),
        pushed_all(groups, of_group(before, key)),
        packets[i],
    );
    law_fragments_are_reassembled(groups, whole, pieces, fragments, k);
}

} // verus!
