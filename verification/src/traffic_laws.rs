//! What is counted, and what is taken out.

use vstd::prelude::*;

use crate::order::{
    is_sorted_by, law_sorting_is_a_permutation, lemma_double_rank, lemma_single_rank, sort_by,
    text_less,
};
use crate::table::{get, lemma_put};
use crate::traffic::{
    consistent, due, kept, law_drain_partitions, lemma_with_ip, recorded, record_rank, text_rank,
    values, with_ip, TrafficModel,
};

verus! {

/// The first traffic of a user makes a record of exactly that traffic.
pub proof fn law_first_traffic(
    s: Seq<((Seq<char>, Seq<char>), TrafficModel)>,
    node_tag: Seq<char>,
    user_uuid: Seq<char>,
    user_id: Option<u64>,
    upload: u64,
    download: u64,
    ip: Seq<char>,
)
    requires
        get(s, (node_tag, user_uuid)) is None,
    ensures
        get(
            recorded(s, (node_tag, user_uuid), user_id, upload, download, Some(ip)),
            (node_tag, user_uuid),
        ) == Some(
            TrafficModel {
                node_tag,
                user_uuid,
                user_id,
                upload,
                download,
                online_ips: seq![ip],
            },
        ),
        get(
            recorded(s, (node_tag, user_uuid), user_id, upload, download, None),
            (node_tag, user_uuid),
        ) == Some(
            TrafficModel {
                node_tag,
                user_uuid,
                user_id,
                upload,
                download,
                online_ips: Seq::empty(),
            },
        ),
{
    let key = (node_tag, user_uuid);
    let with = TrafficModel {
        node_tag,
        user_uuid,
        user_id,
        upload,
        download,
        online_ips: seq![ip],
    };
    let none = Seq::<Seq<char>>::empty();
    let without = TrafficModel { online_ips: none, ..with };
    lemma_put(s, key, with);
    lemma_put(s, key, without);
    assert(none.push(ip) =~= seq![ip]);
    assert(with_ip(none, ip) =~= seq![ip]) by {
        let one = none.push(ip);
        assert(one.subrange(0, 0) =~= none);
        reveal_with_fuel(sort_by, 2);
        assert(sort_by(none, text_rank()) =~= none);
        assert(sort_by(one, text_rank()) =~= none.push(ip));
    }
    assert(!none.contains(ip));
}

/// Further traffic of a user is added to what its record holds; sums that do not fit stay at the
/// largest number. The record keeps the user id that it has, and gets the address of the client
/// among its addresses.
pub proof fn law_further_traffic(
    s: Seq<((Seq<char>, Seq<char>), TrafficModel)>,
    key: (Seq<char>, Seq<char>),
    user_id: Option<u64>,
    upload: u64,
    download: u64,
    ip: Option<Seq<char>>,
)
    requires
        consistent(s),
        get(s, key) is Some,
    ensures
        ({
            let old = get(s, key)->0;
            let new = get(recorded(s, key, user_id, upload, download, ip), key)->0;
            &&& get(recorded(s, key, user_id, upload, download, ip), key) is Some
            &&& new.node_tag == key.0 && new.user_uuid == key.1
            &&& old.upload + upload <= u64::MAX ==> new.upload == old.upload + upload
            &&& old.upload + upload > u64::MAX ==> new.upload == u64::MAX
            &&& old.download + download <= u64::MAX ==> new.download == old.download + download
            &&& old.download + download > u64::MAX ==> new.download == u64::MAX
            &&& old.user_id is Some ==> new.user_id == old.user_id
            &&& old.user_id is None ==> new.user_id == user_id
            &&& forall|x: Seq<char>|
                #[trigger] new.online_ips.contains(x) <==> old.online_ips.contains(x) || ip == Some(
                    x,
                )
            &&& new.online_ips.no_duplicates()
            &&& ip is None ==> new.online_ips == old.online_ips
        }),
{
    let old = get(s, key)->0;
    crate::table::lemma_find(s, key);
    let new = crate::traffic::counted(old, user_id, upload, download, ip);
    lemma_put(s, key, new);
    let f = crate::table::find(s, key);
    assert(s[f].0 == (s[f].1.node_tag, s[f].1.user_uuid));
    if let Some(ip) = ip {
        lemma_with_ip(old.online_ips, ip);
    }
}

/// The addresses of a record are ordered.
pub proof fn law_addresses_are_ordered(
    s: Seq<((Seq<char>, Seq<char>), TrafficModel)>,
    k: int,
    i: int,
    j: int,
)
    requires
        consistent(s),
        0 <= k < s.len(),
        0 <= i < j < s[k].1.online_ips.len(),
    ensures
        text_less(s[k].1.online_ips[i], s[k].1.online_ips[j]),
{
    let ips = s[k].1.online_ips;
    assert(s[k].0 == (s[k].1.node_tag, s[k].1.user_uuid));
    assert(is_sorted_by(ips, text_rank()));
    assert(ips[i] != ips[j]);
    lemma_single_rank(ips[j], ips[i]);
    crate::order::lemma_text_total(ips[i], ips[j]);
}

/// A record is taken out exactly where its upload and its download together are at least the
/// minimum; the others stay as they are.
pub proof fn law_drained_records(
    s: Seq<((Seq<char>, Seq<char>), TrafficModel)>,
    minimum: u64,
    key: (Seq<char>, Seq<char>),
)
    requires
        consistent(s),
        get(s, key) is Some,
    ensures
        ({
            let m = get(s, key)->0;
            let drained = sort_by(due(s, minimum), record_rank());
            &&& drained.contains(m) <==> m.upload + m.download >= minimum
            &&& m.upload + m.download >= minimum ==> get(kept(s, minimum), key) is None
            &&& m.upload + m.download < minimum ==> get(kept(s, minimum), key) == Some(m)
            &&& sort_by(values(s), record_rank()).contains(m)
        }),
{
    law_drain_partitions(s, minimum, key);
    law_sorting_is_a_permutation(values(s), record_rank());
    crate::table::lemma_find(s, key);
    let f = crate::table::find(s, key);
    assert(values(s)[f] == s[f].1);
    assert(values(s).contains(get(s, key)->0));
}

/// Only records are taken out, and in order: by their node tags, and by their user ids where those
/// are the same.
pub proof fn law_drained_records_are_ordered(
    s: Seq<((Seq<char>, Seq<char>), TrafficModel)>,
    minimum: u64,
    i: int,
    j: int,
)
    requires
        consistent(s),
        0 <= i < j < sort_by(due(s, minimum), record_rank()).len(),
    ensures
        ({
            let a = sort_by(due(s, minimum), record_rank())[i];
            let b = sort_by(due(s, minimum), record_rank())[j];
            &&& !text_less(b.node_tag, a.node_tag)
            &&& a.node_tag == b.node_tag ==> !text_less(b.user_uuid, a.user_uuid)
            &&& get(s, (a.node_tag, a.user_uuid)) == Some(a)
            &&& get(s, (b.node_tag, b.user_uuid)) == Some(b)
        }),
{
    let d = due(s, minimum);
    let all = sort_by(d, record_rank());
    law_sorting_is_a_permutation(d, record_rank());
    let a = all[i];
    let b = all[j];
    lemma_double_rank(b.node_tag, b.user_uuid, a.node_tag, a.user_uuid);
    assert(d.contains(a)) by {
        assert(all.contains(a));
    }
    assert(d.contains(b)) by {
        assert(all.contains(b));
    }
    lemma_due_is_recorded(s, minimum, a);
    lemma_due_is_recorded(s, minimum, b);
}

/// What is due stands under its key.
proof fn lemma_due_is_recorded(
    s: Seq<((Seq<char>, Seq<char>), TrafficModel)>,
    minimum: u64,
    m: TrafficModel,
)
    requires
        consistent(s),
        due(s, minimum).contains(m),
    ensures
        get(s, (m.node_tag, m.user_uuid)) == Some(m),
{
    let k = choose|k: int| 0 <= k < due(s, minimum).len() && due(s, minimum)[k] == m;
    lemma_due_at(s, minimum, k);
    let f = choose|f: int| 0 <= f < s.len() && (#[trigger] s[f]).1 == m;
    assert(s[f].0 == (m.node_tag, m.user_uuid));
    crate::table::lemma_find(s, s[f].0);
    let g = crate::table::find(s, s[f].0);
    if g < 0 {
        assert(s[f].0 != s[f].0);
    } else if g < f {
        assert(s[g].0 != s[f].0);
    } else if f < g {
        assert(s[f].0 != s[g].0);
    }
}

/// What is due is a record.
proof fn lemma_due_at(
    s: Seq<((Seq<char>, Seq<char>), TrafficModel)>,
    minimum: u64,
    k: int,
)
    requires
        0 <= k < due(s, minimum).len(),
    ensures
        exists|f: int| 0 <= f < s.len() && (#[trigger] s[f]).1 == due(s, minimum)[k],
    decreases s.len(),
{
    let init = s.subrange(0, s.len() - 1);
    if k < due(init, minimum).len() {
        lemma_due_at(init, minimum, k);
        let f = choose|f: int| 0 <= f < init.len() && (#[trigger] init[f]).1 == due(init, minimum)[k];
        assert(s[f] == init[f]);
    } else {
        assert(s[s.len() - 1].1 == due(s, minimum)[k]);
    }
}

} // verus!
