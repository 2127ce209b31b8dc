//! Per-user traffic counters of a node.

use vstd::prelude::*;

use crate::address::IpAddress;
use crate::order::{
    is_sorted_by, law_sorting_is_a_permutation, lemma_double_rank, lemma_sort_of_mapped, rank_of,
    sort_by, sort_ranked, text_before, Ranked,
};
use crate::text::{text_view, texts};
use crate::table::{
    distinct, find, get, lemma_find, lemma_mapped, lemma_put, mapped, put, Table, TableKey,
};

verus! {

/// What a counter belongs to: a user of a node.
#[derive(Debug, PartialEq, Eq)]
pub struct TrafficKey {
    pub node_tag: String,
    pub user_uuid: String,
}

impl View for TrafficKey {
    type V = (Seq<char>, Seq<char>);

    open spec fn view(&self) -> (Seq<char>, Seq<char>) {
        (self.node_tag@, self.user_uuid@)
    }
}

impl TableKey for TrafficKey {
    fn same_key(&self, other: &TrafficKey) -> (r: bool) {
        self.node_tag == other.node_tag && self.user_uuid == other.user_uuid
    }

    fn copy_key(&self) -> (r: TrafficKey) {
        TrafficKey { node_tag: self.node_tag.clone(), user_uuid: self.user_uuid.clone() }
    }
}

/// The traffic of one user of a node since it was last reported.
#[derive(Debug, PartialEq, Eq)]
pub struct TrafficDelta {
    pub node_tag: String,
    pub user_uuid: String,
    pub user_id: Option<u64>,
    pub upload: u64,
    pub download: u64,
    pub online_ips: Vec<String>,
}

/// The mathematical value of a traffic record.
#[verifier::ext_equal]
pub struct TrafficModel {
    pub node_tag: Seq<char>,
    pub user_uuid: Seq<char>,
    pub user_id: Option<u64>,
    pub upload: u64,
    pub download: u64,
    pub online_ips: Seq<Seq<char>>,
}

impl View for TrafficDelta {
    type V = TrafficModel;

    open spec fn view(&self) -> TrafficModel {
        TrafficModel {
            node_tag: self.node_tag@,
            user_uuid: self.user_uuid@,
            user_id: self.user_id,
            upload: self.upload,
            download: self.download,
            online_ips: texts(self.online_ips@),
        }
    }
}

/// The rank of a text among texts.
pub open spec fn text_rank() -> spec_fn(Seq<char>) -> Seq<Seq<char>> {
    |t: Seq<char>| seq![t]
}

/// The rank of a record: its node tag, then its uuid.
pub open spec fn record_rank() -> spec_fn(TrafficModel) -> Seq<Seq<char>> {
    |m: TrafficModel| seq![m.node_tag, m.user_uuid]
}

impl Ranked for TrafficDelta {
    open spec fn rank(&self) -> Seq<Seq<char>> {
        seq![self.node_tag@, self.user_uuid@]
    }

    fn before(&self, other: &TrafficDelta) -> (r: bool) {
        proof {
            lemma_double_rank(self.node_tag@, self.user_uuid@, other.node_tag@, other.user_uuid@);
        }
        text_before(self.node_tag.as_str(), other.node_tag.as_str()) || (self.node_tag
            == other.node_tag && text_before(self.user_uuid.as_str(), other.user_uuid.as_str()))
    }
}

/// The sum, or the largest value where the sum does not fit.
pub open spec fn saturated(a: u64, b: u64) -> u64 {
    if a + b > u64::MAX {
        u64::MAX
    } else {
        (a + b) as u64
    }
}

/// A list of addresses with one more, ordered, where it is not there yet.
pub open spec fn with_ip(ips: Seq<Seq<char>>, ip: Seq<char>) -> Seq<Seq<char>> {
    if ips.contains(ip) {
        ips
    } else {
        sort_by(ips.push(ip), text_rank())
    }
}

/// A record that nothing was counted in.
pub open spec fn fresh(key: (Seq<char>, Seq<char>), user_id: Option<u64>) -> TrafficModel {
    TrafficModel {
        node_tag: key.0,
        user_uuid: key.1,
        user_id,
        upload: 0,
        download: 0,
        online_ips: Seq::empty(),
    }
}

/// A record after counting more traffic, with the user id where it had none.
pub open spec fn counted(
    m: TrafficModel,
    user_id: Option<u64>,
    upload: u64,
    download: u64,
    ip: Option<Seq<char>>,
) -> TrafficModel {
    TrafficModel {
        user_id: if m.user_id is None {
            user_id
        } else {
            m.user_id
        },
        upload: saturated(m.upload, upload),
        download: saturated(m.download, download),
        online_ips: match ip {
            Some(ip) => with_ip(m.online_ips, ip),
            None => m.online_ips,
        },
        ..m
    }
}

/// The records after counting traffic of one key.
pub open spec fn recorded(
    s: Seq<((Seq<char>, Seq<char>), TrafficModel)>,
    key: (Seq<char>, Seq<char>),
    user_id: Option<u64>,
    upload: u64,
    download: u64,
    ip: Option<Seq<char>>,
) -> Seq<((Seq<char>, Seq<char>), TrafficModel)> {
    let m = match get(s, key) {
        Some(m) => m,
        None => fresh(key, user_id),
    };
    put(s, key, counted(m, user_id, upload, download, ip))
}

/// Whether a record has at least the given total.
pub open spec fn reaches(m: TrafficModel, minimum: u64) -> bool {
    saturated(m.upload, m.download) >= minimum
}

/// The records with at least the given total.
pub open spec fn due(
    s: Seq<((Seq<char>, Seq<char>), TrafficModel)>,
    minimum: u64,
) -> Seq<TrafficModel>
    decreases s.len(),
{
    if s.len() == 0 {
        Seq::empty()
    } else {
        let rest = due(s.subrange(0, s.len() - 1), minimum);
        let last = s[s.len() - 1];
        if reaches(last.1, minimum) {
            rest.push(last.1)
        } else {
            rest
        }
    }
}

/// The records below the given total.
pub open spec fn kept(
    s: Seq<((Seq<char>, Seq<char>), TrafficModel)>,
    minimum: u64,
) -> Seq<((Seq<char>, Seq<char>), TrafficModel)>
    decreases s.len(),
{
    if s.len() == 0 {
        Seq::empty()
    } else {
        let rest = kept(s.subrange(0, s.len() - 1), minimum);
        let last = s[s.len() - 1];
        if reaches(last.1, minimum) {
            rest
        } else {
            rest.push(last)
        }
    }
}

/// The values of traffic records.
pub open spec fn record_view() -> spec_fn(TrafficDelta) -> TrafficModel {
    |d: TrafficDelta| d@
}

/// The values of a list of traffic records.
pub open spec fn models(s: Seq<TrafficDelta>) -> Seq<TrafficModel> {
    s.map_values(record_view())
}

/// The counters of all users of all nodes.
#[derive(Debug)]
pub struct TrafficRegistry {
    counters: Table<TrafficKey, TrafficDelta>,
}

impl View for TrafficRegistry {
    type V = Seq<((Seq<char>, Seq<char>), TrafficModel)>;

    closed spec fn view(&self) -> Seq<((Seq<char>, Seq<char>), TrafficModel)> {
        mapped(self.counters@, record_view())
    }
}

/// Whether addresses are ordered and none occurs twice.
pub open spec fn tidy(ips: Seq<Seq<char>>) -> bool {
    is_sorted_by(ips, text_rank()) && ips.no_duplicates()
}

/// One record per key, each naming its key, its addresses ordered and without repetition.
pub open spec fn consistent(s: Seq<((Seq<char>, Seq<char>), TrafficModel)>) -> bool {
    &&& distinct(s)
    &&& forall|i: int|
        0 <= i < s.len() ==> {
            &&& (#[trigger] s[i]).0 == (s[i].1.node_tag, s[i].1.user_uuid)
            &&& tidy(s[i].1.online_ips)
        }
}

/// Adding an address keeps a list of addresses tidy.
pub proof fn lemma_with_ip(ips: Seq<Seq<char>>, ip: Seq<char>)
    requires
        tidy(ips),
    ensures
        tidy(with_ip(ips, ip)),
        forall|x: Seq<char>| #[trigger] with_ip(ips, ip).contains(x) <==> ips.contains(x) || x == ip,
{
    let pushed = ips.push(ip);
    if !ips.contains(ip) {
        law_sorting_is_a_permutation(pushed, text_rank());
        let out = sort_by(pushed, text_rank());
        assert(pushed.no_duplicates()) by {
            assert forall|i: int, j: int| 0 <= i < pushed.len() && 0 <= j < pushed.len() && i
                != j implies pushed[i] != pushed[j] by {
                if i < ips.len() && j == ips.len() {
                    assert(ips.contains(ips[i]));
                }
                if j < ips.len() && i == ips.len() {
                    assert(ips.contains(ips[j]));
                }
            }
        }
        assert(out.no_duplicates()) by {
            pushed.lemma_multiset_has_no_duplicates();
            out.lemma_multiset_has_no_duplicates_conv();
        }
        assert forall|x: Seq<char>| #[trigger] out.contains(x) <==> ips.contains(x) || x == ip by {
            if pushed.contains(x) {
                let k = choose|k: int| 0 <= k < pushed.len() && pushed[k] == x;
                if k < ips.len() {
                    assert(ips[k] == x);
                }
            }
            if ips.contains(x) {
                let k = choose|k: int| 0 <= k < ips.len() && ips[k] == x;
                assert(pushed[k] == x);
            }
            assert(pushed[ips.len() as int] == ip);
        }
    }
}

/// Counting traffic keeps the records consistent.
pub proof fn lemma_recorded_consistent(
    s: Seq<((Seq<char>, Seq<char>), TrafficModel)>,
    key: (Seq<char>, Seq<char>),
    user_id: Option<u64>,
    upload: u64,
    download: u64,
    ip: Option<Seq<char>>,
)
    requires
        consistent(s),
    ensures
        consistent(recorded(s, key, user_id, upload, download, ip)),
{
    lemma_find(s, key);
    let m = match get(s, key) {
        Some(m) => m,
        None => fresh(key, user_id),
    };
    if get(s, key) is Some {
        assert(s[find(s, key)].0 == (m.node_tag, m.user_uuid));
    }
    assert(tidy(m.online_ips));
    let n = counted(m, user_id, upload, download, ip);
    if ip is Some {
        lemma_with_ip(m.online_ips, ip->0);
    }
    lemma_put(s, key, n);
    let t = put(s, key, n);
    assert forall|i: int| 0 <= i < t.len() implies {
        &&& (#[trigger] t[i]).0 == (t[i].1.node_tag, t[i].1.user_uuid)
        &&& tidy(t[i].1.online_ips)
    } by {
        if i < s.len() {
            assert(s[i].0 == (s[i].1.node_tag, s[i].1.user_uuid));
        }
    }
}

/// What stays is consistent where all was.
pub proof fn lemma_kept_consistent(s: Seq<((Seq<char>, Seq<char>), TrafficModel)>, minimum: u64)
    requires
        consistent(s),
    ensures
        consistent(kept(s, minimum)),
        kept(s, minimum).len() + due(s, minimum).len() == s.len(),
        forall|i: int|
            0 <= i < kept(s, minimum).len() ==> s.contains(#[trigger] kept(s, minimum)[i]),
        forall|key: (Seq<char>, Seq<char>)|
            #[trigger] get(kept(s, minimum), key) == (match get(s, key) {
                Some(m) => if reaches(m, minimum) {
                    None
                } else {
                    Some(m)
                },
                None => None,
            }),
    decreases s.len(),
{
    if s.len() > 0 {
        let init = s.subrange(0, s.len() - 1);
        let last = s[s.len() - 1];
        assert(consistent(init)) by {
            assert forall|i: int, j: int| 0 <= i < j < init.len() implies #[trigger] init[i].0
                != #[trigger] init[j].0 by {
                assert(init[i] == s[i] && init[j] == s[j]);
            }
            assert forall|i: int| 0 <= i < init.len() implies {
                &&& (#[trigger] init[i]).0 == (init[i].1.node_tag, init[i].1.user_uuid)
                &&& tidy(init[i].1.online_ips)
            } by {
                assert(init[i] == s[i]);
            }
        }
        lemma_kept_consistent(init, minimum);
        let k = kept(init, minimum);
        let t = kept(s, minimum);
        assert forall|i: int| 0 <= i < k.len() implies s.contains(#[trigger] k[i]) && k[i].0
            != last.0 by {
            assert(init.contains(k[i]));
            let m = choose|m: int| 0 <= m < init.len() && init[m] == k[i];
            assert(s[m] == k[i]);
            assert(s[s.len() - 1].0 == last.0);
        }
        assert(s[s.len() - 1] == last);
        assert forall|i: int| 0 <= i < t.len() implies s.contains(#[trigger] t[i]) by {
            if i < k.len() {
                assert(t[i] == k[i]);
            }
        }
        assert(distinct(t)) by {
            assert forall|i: int, j: int| 0 <= i < j < t.len() implies #[trigger] t[i].0
                != #[trigger] t[j].0 by {
                assert(t[i] == k[i]);
                if j < k.len() {
                    assert(t[j] == k[j]);
                }
            }
        }
        assert forall|i: int| 0 <= i < t.len() implies {
            &&& (#[trigger] t[i]).0 == (t[i].1.node_tag, t[i].1.user_uuid)
            &&& tidy(t[i].1.online_ips)
        } by {
            if i < k.len() {
                assert(t[i] == k[i]);
            }
        }
        assert forall|key: (Seq<char>, Seq<char>)| #[trigger] get(t, key) == (match get(s, key) {
            Some(m) => if reaches(m, minimum) {
                None
            } else {
                Some(m)
            },
            None => None,
        }) by {
            lemma_find(s, key);
            lemma_find(init, key);
            lemma_find(k, key);
            assert(get(k, key) == (match get(init, key) {
                Some(m) => if reaches(m, minimum) {
                    None
                } else {
                    Some(m)
                },
                None => None,
            }));
            if key == last.0 {
                assert(find(init, key) < 0) by {
                    if find(init, key) >= 0 {
                        assert(init[find(init, key)] == s[find(init, key)]);
                    }
                }
                assert(find(k, key) < 0) by {
                    if find(k, key) >= 0 {
                        assert(k[find(k, key)].0 != last.0);
                    }
                }
            }
            if !reaches(last.1, minimum) {
                assert(t.subrange(0, t.len() - 1) == k);
            }
        }
    }
}

impl TrafficRegistry {
    /// One record per key, each naming its key, its addresses ordered and without repetition.
    pub open spec fn wf(&self) -> bool {
        consistent(self@)
    }

    /// A registry without counters.
    pub fn new() -> (r: TrafficRegistry)
        ensures
            r.wf(),
            r@.len() == 0,
    {
        TrafficRegistry { counters: Table::new() }
    }

    /// Counts traffic of a user.
    pub fn add(&mut self, node_tag: &str, user_uuid: &str, upload: u64, download: u64)
        requires
            old(self).wf(),
        ensures
            final(self).wf(),
            final(self)@ == recorded(
                old(self)@,
                (node_tag@, user_uuid@),
                None,
                upload,
                download,
                None,
            ),
    {
        self.add_with_ip(node_tag, user_uuid, upload, download, None)
    }

    /// Counts traffic of a user from an address.
    pub fn add_with_ip(
        &mut self,
        node_tag: &str,
        user_uuid: &str,
        upload: u64,
        download: u64,
        client_ip: Option<IpAddress>,
    )
        requires
            old(self).wf(),
        ensures
            final(self).wf(),
            final(self)@ == recorded(
                old(self)@,
                (node_tag@, user_uuid@),
                None,
                upload,
                download,
                ip_text(client_ip),
            ),
    {
        self.add_with_user_id(node_tag, user_uuid, None, upload, download, client_ip)
    }

    /// Counts traffic of a user with a user id from an address.
    pub fn add_with_user_id(
        &mut self,
        node_tag: &str,
        user_uuid: &str,
        user_id: Option<u64>,
        upload: u64,
        download: u64,
        client_ip: Option<IpAddress>,
    )
        requires
            old(self).wf(),
        ensures
            final(self).wf(),
            final(self)@ == recorded(
                old(self)@,
                (node_tag@, user_uuid@),
                user_id,
                upload,
                download,
                ip_text(client_ip),
            ),
    {
        let key = TrafficKey { node_tag: node_tag.to_owned(), user_uuid: user_uuid.to_owned() };
        proof {
            lemma_recorded_consistent(
                self@,
                key@,
                user_id,
                upload,
                download,
                ip_text(client_ip),
            );
            lemma_mapped(self.counters@, record_view());
        }
        match self.counters.position(&key) {
            Some(i) => {
                let entry = self.counters.value_mut(i);
                count_into(entry, user_id, upload, download, client_ip);
                assert(self@ =~= recorded(
                    old(self)@,
                    key@,
                    user_id,
                    upload,
                    download,
                    ip_text(client_ip),
                ));
            },
            None => {
                let mut entry = TrafficDelta {
                    node_tag: node_tag.to_owned(),
                    user_uuid: user_uuid.to_owned(),
                    user_id,
                    upload: 0,
                    download: 0,
                    online_ips: Vec::new(),
                };
                assert(entry@ =~= fresh(key@, user_id));
                count_into(&mut entry, user_id, upload, download, client_ip);
                let old_entry = self.counters.insert(key, entry);
            },
        }
    }

    /// Takes out all records, ordered by node tag and uuid.
    pub fn drain_all(&mut self) -> (r: Vec<TrafficDelta>)
        requires
            old(self).wf(),
        ensures
            final(self).wf(),
            final(self)@.len() == 0,
            models(r@) == sort_by(values(old(self)@), record_rank()),
    {
        proof {
            lemma_all_due(self@);
            lemma_kept_consistent(self@, 0);
        }
        self.drain_minimum(0)
    }

    /// Takes out the records with at least the given total, ordered by node tag and uuid.
    pub fn drain_minimum(&mut self, minimum_bytes: u64) -> (r: Vec<TrafficDelta>)
        requires
            old(self).wf(),
        ensures
            final(self).wf(),
            final(self)@ == kept(old(self)@, minimum_bytes),
            models(r@) == sort_by(due(old(self)@, minimum_bytes), record_rank()),
    {
        let ghost all = self@;
        proof {
            lemma_kept_consistent(self@, minimum_bytes);
        }
        let mut records: Vec<TrafficDelta> = Vec::new();
        let mut i: usize = 0;
        let ghost mut done: int = 0;
        assert(all.subrange(0, all.len() as int) == all);
        assert(models(records@) =~= Seq::<TrafficModel>::empty());
        assert(self@ =~= kept(all.subrange(0, 0), minimum_bytes) + all);
        while i < self.counters.len()
            invariant
                0 <= done <= all.len(),
                i <= self.counters@.len(),
                i == kept(all.subrange(0, done), minimum_bytes).len(),
                self@ == kept(all.subrange(0, done), minimum_bytes) + all.subrange(
                    done,
                    all.len() as int,
                ),
                models(records@) == due(all.subrange(0, done), minimum_bytes),
            decreases all.len() - done,
        {
            proof {
                lemma_mapped(self.counters@, record_view());
                let longer = all.subrange(0, done + 1);
                assert(longer.subrange(0, longer.len() - 1) == all.subrange(0, done));
                assert(self@[i as int] == all[done]);
                assert(self@[i as int].1 == self.counters@[i as int].1@);
            }
            let ghost before = self@;
            let ghost head = kept(all.subrange(0, done), minimum_bytes);
            let entry = self.counters.value_at(i);
            let total: u64 = entry.upload.saturating_add(entry.download);
            if total >= minimum_bytes {
                let ghost earlier = records@;
                let record = self.counters.remove_at(i);
                records.push(record);
                proof {
                    assert(models(records@) =~= models(earlier).push(all[done].1));
                    assert(self@ == before.remove(i as int));
                    assert(self@ =~= head + all.subrange(done + 1, all.len() as int));
                }
            } else {
                i += 1;
                proof {
                    assert(self@ =~= head.push(all[done]) + all.subrange(
                        done + 1,
                        all.len() as int,
                    ));
                }
            }
            proof {
                done = done + 1;
            }
        }
        proof {
            lemma_mapped(self.counters@, record_view());
            assert(done == all.len());
            assert(all.subrange(done, all.len() as int) =~= Seq::<
                ((Seq<char>, Seq<char>), TrafficModel),
            >::empty());
            assert(self@ =~= kept(all, minimum_bytes));
            lemma_sort_of_mapped(
                records@,
                rank_of::<TrafficDelta>(),
                record_view(),
                record_rank(),
            );
        }
        sort_ranked(records)
    }

    /// The number of records.
    pub fn len(&self) -> (r: usize)
        ensures
            r == self@.len(),
    {
        self.counters.len()
    }

    /// Whether there is no record.
    pub fn is_empty(&self) -> (r: bool)
        ensures
            r == (self@.len() == 0),
    {
        self.counters.is_empty()
    }
}

impl Default for TrafficRegistry {
    fn default() -> (r: TrafficRegistry)
        ensures
            r.wf(),
            r@.len() == 0,
    {
        TrafficRegistry::new()
    }
}

/// The notation of an optional address.
pub open spec fn ip_text(ip: Option<IpAddress>) -> Option<Seq<char>> {
    match ip {
        Some(ip) => Some(ip@.text()),
        None => None,
    }
}

/// The records without their keys.
pub open spec fn values(s: Seq<((Seq<char>, Seq<char>), TrafficModel)>) -> Seq<TrafficModel> {
    s.map_values(|e: ((Seq<char>, Seq<char>), TrafficModel)| e.1)
}

/// Every record reaches a minimum of zero.
proof fn lemma_all_due(s: Seq<((Seq<char>, Seq<char>), TrafficModel)>)
    ensures
        due(s, 0) == values(s),
        kept(s, 0).len() == 0,
    decreases s.len(),
{
    if s.len() > 0 {
        let init = s.subrange(0, s.len() - 1);
        lemma_all_due(init);
        assert(values(s) =~= values(init).push(s[s.len() - 1].1));
    } else {
        assert(values(s) =~= due(s, 0));
    }
}

/// Adds an address to an ordered list of addresses.
fn add_ip(ips: &mut Vec<String>, ip: String)
    ensures
        texts(final(ips)@) == with_ip(texts(old(ips)@), ip@),
{
    let mut i: usize = 0;
    while i < ips.len()
        invariant
            i <= ips@.len(),
            ips@ == old(ips)@,
            forall|k: int| 0 <= k < i ==> #[trigger] texts(ips@)[k] != ip@,
        decreases ips.len() - i,
    {
        assert(texts(ips@)[i as int] == ips@[i as int]@);
        if ips[i] == ip {
            assert(texts(ips@).contains(ip@));
            return;
        }
        i += 1;
    }
    assert(!texts(ips@).contains(ip@));
    let mut all: Vec<String> = Vec::new();
    std::mem::swap(&mut all, ips);
    let ghost before = all@;
    all.push(ip);
    proof {
        assert(texts(all@) =~= texts(before).push(ip@));
        lemma_sort_of_mapped(all@, rank_of::<String>(), text_view(), text_rank());
    }
    let mut sorted = sort_ranked(all);
    std::mem::swap(&mut sorted, ips);
}

/// Counts more traffic in a record.
fn count_into(
    entry: &mut TrafficDelta,
    user_id: Option<u64>,
    upload: u64,
    download: u64,
    client_ip: Option<IpAddress>,
)
    ensures
        final(entry)@ == counted(old(entry)@, user_id, upload, download, ip_text(client_ip)),
{
    if entry.user_id.is_none() {
        entry.user_id = user_id;
    }
    entry.upload = entry.upload.saturating_add(upload);
    entry.download = entry.download.saturating_add(download);
    if let Some(client_ip) = client_ip {
        let text = client_ip.to_text();
        add_ip(&mut entry.online_ips, text);
    }
}

/// Draining reports every record that reaches the minimum and no other, and keeps the rest.
pub proof fn law_drain_partitions(
    s: Seq<((Seq<char>, Seq<char>), TrafficModel)>,
    minimum: u64,
    key: (Seq<char>, Seq<char>),
)
    requires
        consistent(s),
    ensures
        get(s, key) is Some ==> (sort_by(due(s, minimum), record_rank()).contains(get(s, key)->0)
            <==> reaches(get(s, key)->0, minimum)),
        get(kept(s, minimum), key) == (match get(s, key) {
            Some(m) => if reaches(m, minimum) {
                None
            } else {
                Some(m)
            },
            None => None,
        }),
        sort_by(due(s, minimum), record_rank()).len() + kept(s, minimum).len() == s.len(),
{
    lemma_kept_consistent(s, minimum);
    law_sorting_is_a_permutation(due(s, minimum), record_rank());
    if get(s, key) is Some {
        lemma_find(s, key);
        lemma_due(s, minimum, find(s, key));
    }
}

/// A record is due exactly where it reaches the minimum.
proof fn lemma_due(s: Seq<((Seq<char>, Seq<char>), TrafficModel)>, minimum: u64, i: int)
    requires
        0 <= i < s.len(),
    ensures
        due(s, minimum).contains(s[i].1) <==> reaches(s[i].1, minimum),
    decreases s.len(),
{
    let init = s.subrange(0, s.len() - 1);
    let last = s[s.len() - 1];
    let rest = due(init, minimum);
    let all = due(s, minimum);
    if reaches(s[i].1, minimum) {
        if i < init.len() {
            lemma_due(init, minimum, i);
            assert(init[i] == s[i]);
            let k = choose|k: int| 0 <= k < rest.len() && rest[k] == s[i].1;
            assert(all[k] == s[i].1);
        } else {
            assert(all[rest.len() as int] == s[i].1);
        }
    } else if all.contains(s[i].1) {
        let k = choose|k: int| 0 <= k < all.len() && all[k] == s[i].1;
        lemma_due_reaches(s, minimum, k);
    }
}

/// Everything that is due reaches the minimum.
proof fn lemma_due_reaches(s: Seq<((Seq<char>, Seq<char>), TrafficModel)>, minimum: u64, k: int)
    requires
        0 <= k < due(s, minimum).len(),
    ensures
        reaches(due(s, minimum)[k], minimum),
    decreases s.len(),
{
    let init = s.subrange(0, s.len() - 1);
    if k < due(init, minimum).len() {
        lemma_due_reaches(init, minimum, k);
    }
}

/// Counting traffic in two parts is counting the sum.
pub proof fn law_counting_in_parts(
    m: TrafficModel,
    user_id: Option<u64>,
    up1: u64,
    down1: u64,
    up2: u64,
    down2: u64,
    ip: Option<Seq<char>>,
)
    requires
        tidy(m.online_ips),
    ensures
        counted(counted(m, user_id, up1, down1, ip), user_id, up2, down2, ip) == counted(
            m,
            user_id,
            saturated(up1, up2),
            saturated(down1, down2),
            ip,
        ),
{
    if ip is Some {
        lemma_with_ip(m.online_ips, ip->0);
    }
}

/// Counting traffic of one user leaves the records of all others alone.
pub proof fn law_counting_is_local(
    s: Seq<((Seq<char>, Seq<char>), TrafficModel)>,
    key: (Seq<char>, Seq<char>),
    other: (Seq<char>, Seq<char>),
    user_id: Option<u64>,
    upload: u64,
    download: u64,
    ip: Option<Seq<char>>,
)
    requires
        other != key,
    ensures
        get(recorded(s, key, user_id, upload, download, ip), other) == get(s, other),
        get(recorded(s, key, user_id, upload, download, ip), key) is Some,
{
    let m = match get(s, key) {
        Some(m) => m,
        None => fresh(key, user_id),
    };
    lemma_put(s, key, counted(m, user_id, upload, download, ip));
}

} // verus!
