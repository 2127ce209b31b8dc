//! IP addresses, socket addresses, and their textual notation.

use vstd::prelude::*;
use vstd::std_specs::cmp::PartialEqSpecImpl;

use crate::ipv6::{
    group_pieces, groups_text, ipv6_parse, ipv6_text, is_mapped, law_ipv6_text_parses,
    longest_zero_run, parse_ipv6_chars, push_ipv6,
};
use crate::numeral::{
    decimal, decimal_text, digit_value, is_digit, is_numeral, lemma_numeral_len,
    lemma_numeral_value, numeral_value, parse_chars, push_numeral,
};
use crate::table::TableKey;
use crate::text::{
    chars_of, join, lemma_join_of_split, lemma_split_of_join, split, split_chars, views,
};

verus! {

/// An IP address by its octets in network order.
#[derive(Clone, Copy, Debug, PartialEq, Eq)]
pub enum IpAddress {
    V4([u8; 4]),
    V6([u8; 16]),
}

/// The mathematical value of an IP address.
#[verifier::ext_equal]
pub enum IpModel {
    V4(Seq<u8>),
    V6(Seq<u8>),
}

impl View for IpAddress {
    type V = IpModel;

    open spec fn view(&self) -> IpModel {
        match self {
            IpAddress::V4(octets) => IpModel::V4(octets@),
            IpAddress::V6(octets) => IpModel::V6(octets@),
        }
    }
}

/// An IP address and a port. The flow information and the scope count with version six alone.
#[derive(Clone, Copy, Debug)]
pub struct SocketAddress {
    pub ip: IpAddress,
    pub port: u16,
    pub flow_info: u32,
    pub scope_id: u32,
}

/// The mathematical value of a socket address.
#[verifier::ext_equal]
pub struct SocketModel {
    pub ip: IpModel,
    pub port: u16,
    pub flow_info: u32,
    pub scope_id: u32,
}

impl View for SocketAddress {
    type V = SocketModel;

    open spec fn view(&self) -> SocketModel {
        SocketModel {
            ip: self.ip@,
            port: self.port,
            flow_info: if self.ip is V6 {
                self.flow_info
            } else {
                0
            },
            scope_id: if self.ip is V6 {
                self.scope_id
            } else {
                0
            },
        }
    }
}

/// The value of a decimal octet: one to three digits, no leading zero, at most 255.
pub open spec fn octet_of(p: Seq<char>) -> Option<u8> {
    if is_numeral(p, 10) && p.len() <= 3 && (p.len() > 1 ==> p[0] != '0') && numeral_value(p, 10)
        <= 255 {
        Some(numeral_value(p, 10) as u8)
    } else {
        None
    }
}

/// The dotted decimal notation of four octets.
pub open spec fn ipv4_text(octets: Seq<u8>) -> Seq<char> {
    join(ipv4_pieces(octets), '.')
}

/// The decimal notations of the octets.
pub open spec fn ipv4_pieces(octets: Seq<u8>) -> Seq<Seq<char>> {
    octets.map_values(|o: u8| decimal(o as nat))
}

/// The octets that a dotted decimal notation stands for.
pub open spec fn ipv4_parse(t: Seq<char>) -> Option<Seq<u8>> {
    let parts = split(t, '.');
    if parts.len() == 4 && (forall|i: int| 0 <= i < 4 ==> octet_of(#[trigger] parts[i]) is Some) {
        Some(Seq::new(4, |i: int| octet_of(parts[i])->0))
    } else {
        None
    }
}

/// A digit string without a superfluous leading zero is the notation of its value.
proof fn lemma_canonical(p: Seq<char>)
    requires
        is_numeral(p, 10),
        p.len() > 1 ==> p[0] != '0',
    ensures
        decimal(numeral_value(p, 10)) == p,
        p[0] != '0' ==> numeral_value(p, 10) > 0,
    decreases p.len(),
{
    let head = p.subrange(0, p.len() - 1);
    let last = p[p.len() - 1];
    assert(is_digit(last, 10));
    let v = numeral_value(p, 10);
    if p.len() == 1 {
        assert(head == Seq::<char>::empty());
        assert(numeral_value(head, 10) == 0);
        assert(decimal(v) =~= p);
    } else {
        assert forall|i: int| 0 <= i < head.len() implies is_digit(#[trigger] head[i], 10) by {
            assert(head[i] == p[i]);
        }
        lemma_canonical(head);
        let h = numeral_value(head, 10);
        let d = digit_value(last)->0;
        assert(v == h * 10 + d);
        assert(v / 10 == h && v % 10 == d);
        assert(decimal(v) == decimal(h).push(last));
        assert(head.push(last) == p);
    }
}

/// A text is a decimal octet exactly where it is the notation of a value below 256.
proof fn lemma_octet_of(p: Seq<char>, v: u8)
    ensures
        octet_of(p) == Some(v) <==> p == decimal(v as nat),
{
    lemma_numeral_value(v as nat, 10);
    assert(vstd::arithmetic::power::pow(10, 3) == 1000) by {
        reveal_with_fuel(vstd::arithmetic::power::pow, 4);
    }
    lemma_numeral_len(v as nat, 10, 3);
    if octet_of(p) == Some(v) {
        lemma_canonical(p);
    }
    if p == decimal(v as nat) {
        if v == 0 {
            assert(p.len() == 1);
        } else {
            assert(p[0] != '0');
        }
    }
}

/// A digit string holds no character that is not a digit.
proof fn lemma_numeral_free_of(p: Seq<char>, base: nat, c: char)
    requires
        is_numeral(p, base),
        digit_value(c) is None,
    ensures
        !p.contains(c),
{
    if p.contains(c) {
        let k = choose|k: int| 0 <= k < p.len() && p[k] == c;
        assert(is_digit(p[k], base));
    }
}

/// The dotted decimal notation of any four octets parses to these octets.
pub proof fn law_ipv4_text_parses(octets: Seq<u8>)
    requires
        octets.len() == 4,
    ensures
        ipv4_parse(ipv4_text(octets)) == Some(octets),
{
    let pieces = ipv4_pieces(octets);
    assert forall|i: int| 0 <= i < pieces.len() implies !(#[trigger] pieces[i]).contains('.') by {
        lemma_numeral_value(octets[i] as nat, 10);
        lemma_numeral_free_of(pieces[i], 10, '.');
    }
    lemma_split_of_join(pieces, '.');
    assert forall|i: int| 0 <= i < 4 implies octet_of(#[trigger] pieces[i]) == Some(octets[i]) by {
        lemma_octet_of(pieces[i], octets[i]);
    }
    assert(Seq::new(4, |i: int| octet_of(pieces[i])->0) =~= octets);
}

/// Every text that parses as dotted decimal is the notation of what it parses to.
pub proof fn law_ipv4_parse_is_canonical(t: Seq<char>)
    ensures
        ipv4_parse(t) is Some ==> ipv4_parse(t)->0.len() == 4 && ipv4_text(ipv4_parse(t)->0) == t,
{
    if ipv4_parse(t) is Some {
        let parts = split(t, '.');
        let octets = ipv4_parse(t)->0;
        lemma_join_of_split(t, '.');
        assert forall|i: int| 0 <= i < 4 implies #[trigger] parts[i] == ipv4_pieces(octets)[i] by {
            lemma_octet_of(parts[i], octets[i]);
        }
        assert(ipv4_pieces(octets) =~= parts);
    }
}

/// The value of one piece of dotted decimal notation.
fn parse_octet(p: &Vec<char>) -> (r: Option<u8>)
    ensures
        r == octet_of(p@),
{
    if p.len() == 0 || p.len() > 3 || (p.len() > 1 && p[0] == '0') || p[0] == '+' {
        assert(octet_of(p@) is None) by {
            if p@.len() > 0 && p@[0] == '+' {
                assert(!is_digit(p@[0], 10));
            }
        }
        return None;
    }
    assert(p@.subrange(0, p@.len() as int) == p@);
    match parse_chars(p.as_slice(), 0, 10, 255) {
        Some(v) => Some(v as u8),
        None => None,
    }
}

/// Reads dotted decimal notation.
pub fn parse_ipv4_chars(chars: &[char], from: usize, to: usize) -> (r: Option<[u8; 4]>)
    requires
        from <= to <= chars@.len(),
    ensures
        r is Some == ipv4_parse(chars@.subrange(from as int, to as int)) is Some,
        r is Some ==> r->0@ == ipv4_parse(chars@.subrange(from as int, to as int))->0,
{
    let pieces = split_chars(chars, from, to, '.');
    let ghost parts = split(chars@.subrange(from as int, to as int), '.');
    if pieces.len() != 4 {
        return None;
    }
    assert forall|i: int| 0 <= i < 4 implies #[trigger] pieces@[i]@ == parts[i] by {
        assert(views(pieces@)[i] == pieces@[i]@);
    }
    let mut octets: [u8; 4] = [0u8; 4];
    let mut i: usize = 0;
    while i < 4
        invariant
            i <= 4,
            pieces@.len() == 4,
            parts.len() == 4,
            parts == split(chars@.subrange(from as int, to as int), '.'),
            forall|k: int| 0 <= k < 4 ==> #[trigger] pieces@[k]@ == parts[k],
            forall|k: int| 0 <= k < i ==> octet_of(#[trigger] parts[k]) == Some(octets@[k]),
        decreases 4 - i,
    {
        match parse_octet(&pieces[i]) {
            Some(v) => {
                octets[i] = v;
            },
            None => {
                assert(octet_of(parts[i as int]) is None);
                return None;
            },
        }
        i += 1;
    }
    assert(octets@ =~= Seq::new(4, |k: int| octet_of(parts[k])->0));
    Some(octets)
}

/// Appends the dotted decimal notation of four octets.
pub fn push_ipv4(out: &mut String, octets: &[u8; 4])
    ensures
        final(out)@ == old(out)@ + ipv4_text(octets@),
{
    let ghost start = out@;
    let ghost pieces = ipv4_pieces(octets@);
    push_numeral(out, octets[0] as u64, 10);
    assert(join(pieces.subrange(0, 1), '.') == pieces[0]);
    let mut i: usize = 1;
    while i < 4
        invariant
            1 <= i <= 4,
            pieces == ipv4_pieces(octets@),
            out@ == start + join(pieces.subrange(0, i as int), '.'),
        decreases 4 - i,
    {
        let ghost before = out@;
        out.push('.');
        push_numeral(out, octets[i] as u64, 10);
        proof {
            let longer = pieces.subrange(0, i + 1);
            assert(longer.subrange(0, longer.len() - 1) == pieces.subrange(0, i as int));
            let head = join(pieces.subrange(0, i as int), '.');
            assert(join(longer, '.') == head.push('.') + pieces[i as int]);
            assert(out@ =~= start + join(longer, '.'));
        }
        i += 1;
    }
    assert(pieces.subrange(0, 4) == pieces);
}

/// The sixteen octets of eight groups, in network order.
pub open spec fn octets_of_groups(groups: Seq<u16>) -> Seq<u8> {
    Seq::new(
        2 * groups.len(),
        |i: int|
            if i % 2 == 0 {
                (groups[i / 2] / 256) as u8
            } else {
                (groups[i / 2] % 256) as u8
            },
    )
}

/// The groups of octets in network order.
pub open spec fn groups_of_octets(octets: Seq<u8>) -> Seq<u16> {
    Seq::new(
        octets.len() / 2,
        |i: int| (octets[2 * i] as u16 * 256 + octets[2 * i + 1] as u16) as u16,
    )
}

/// Whether all octets are zero.
pub open spec fn all_zeros(octets: Seq<u8>) -> bool {
    forall|i: int| 0 <= i < octets.len() ==> #[trigger] octets[i] == 0
}

impl IpModel {
    /// Whether the address has as many octets as its version says.
    pub open spec fn well_formed(self) -> bool {
        match self {
            IpModel::V4(octets) => octets.len() == 4,
            IpModel::V6(octets) => octets.len() == 16,
        }
    }

    /// The canonical notation of an address.
    pub open spec fn text(self) -> Seq<char> {
        match self {
            IpModel::V4(octets) => ipv4_text(octets),
            IpModel::V6(octets) => ipv6_text(groups_of_octets(octets)),
        }
    }

    /// The address that a text stands for.
    pub open spec fn parse(t: Seq<char>) -> Option<IpModel> {
        if ipv4_parse(t) is Some {
            Some(IpModel::V4(ipv4_parse(t)->0))
        } else if ipv6_parse(t) is Some {
            Some(IpModel::V6(octets_of_groups(ipv6_parse(t)->0)))
        } else {
            None
        }
    }

    /// Whether the address is the wildcard of its version.
    pub open spec fn unspecified(self) -> bool {
        match self {
            IpModel::V4(octets) => all_zeros(octets),
            IpModel::V6(octets) => all_zeros(octets),
        }
    }
}

/// A text stands for an address with as many octets as its version says.
pub proof fn lemma_parse_well_formed(t: Seq<char>)
    ensures
        IpModel::parse(t) is Some ==> IpModel::parse(t)->0.well_formed(),
{
}

/// Octets survive the way through groups.
pub proof fn lemma_octets_of_groups_of_octets(octets: Seq<u8>)
    requires
        octets.len() == 16,
    ensures
        octets_of_groups(groups_of_octets(octets)) == octets,
{
    let back = octets_of_groups(groups_of_octets(octets));
    assert forall|i: int| 0 <= i < 16 implies #[trigger] back[i] == octets[i] by {
        let k = i / 2;
        assert(groups_of_octets(octets)[k] == octets[2 * k] as u16 * 256 + octets[2 * k + 1] as u16);
    }
    assert(back =~= octets);
}

/// The notation of eight groups holds a colon.
proof fn lemma_ipv6_text_has_colon(groups: Seq<u16>)
    requires
        groups.len() == 8,
    ensures
        ipv6_text(groups).contains(':'),
{
    let t = ipv6_text(groups);
    if is_mapped(groups) {
        assert(t[0] == ':');
    } else if exists|s: int, l: int| l >= 2 && #[trigger] longest_zero_run(groups, s, l) {
        let (s, l) = choose|s: int, l: int| l >= 2 && #[trigger] longest_zero_run(groups, s, l);
        assert(t[groups_text(groups.subrange(0, s)).len() as int] == ':');
    } else {
        let pieces = group_pieces(groups);
        let init = join(pieces.subrange(0, 7), ':');
        assert(t == init.push(':') + pieces[7]);
        assert(t[init.len() as int] == ':');
    }
}

/// Dotted decimal notation holds no colon.
proof fn lemma_ipv4_parse_refuses_colon(t: Seq<char>)
    requires
        t.contains(':'),
    ensures
        ipv4_parse(t) is None,
{
    if ipv4_parse(t) is Some {
        law_ipv4_parse_is_canonical(t);
        crate::ipv6::lemma_ipv4_text_chars(ipv4_parse(t)->0);
    }
}

/// The canonical notation of any address parses to this address.
pub proof fn law_ip_text_parses(ip: IpModel)
    requires
        ip.well_formed(),
    ensures
        IpModel::parse(ip.text()) == Some(ip),
{
    match ip {
        IpModel::V4(octets) => {
            law_ipv4_text_parses(octets);
        },
        IpModel::V6(octets) => {
            let groups = groups_of_octets(octets);
            law_ipv6_text_parses(groups);
            lemma_ipv6_text_has_colon(groups);
            lemma_ipv4_parse_refuses_colon(ip.text());
            lemma_octets_of_groups_of_octets(octets);
        },
    }
}

impl IpAddress {
    /// The canonical notation of the address.
    pub fn to_text(&self) -> (r: String)
        ensures
            r@ == self@.text(),
    {
        let mut out = String::new();
        match self {
            IpAddress::V4(octets) => {
                push_ipv4(&mut out, octets);
                assert(out@ =~= ipv4_text(octets@));
            },
            IpAddress::V6(octets) => {
                let mut groups: [u16; 8] = [0u16; 8];
                let mut i: usize = 0;
                while i < 8
                    invariant
                        i <= 8,
                        forall|k: int|
                            0 <= k < i ==> #[trigger] groups@[k] == groups_of_octets(octets@)[k],
                    decreases 8 - i,
                {
                    groups[i] = octets[2 * i] as u16 * 256 + octets[2 * i + 1] as u16;
                    i += 1;
                }
                assert(groups@ =~= groups_of_octets(octets@));
                push_ipv6(&mut out, &groups);
                assert(out@ =~= ipv6_text(groups@));
            },
        }
        out
    }

    /// The address that a text stands for.
    pub fn parse(s: &str) -> (r: Option<IpAddress>)
        ensures
            r is Some == IpModel::parse(s@) is Some,
            r is Some ==> r->0@ == IpModel::parse(s@)->0,
    {
        let chars = chars_of(s);
        assert(chars@.subrange(0, chars@.len() as int) == s@);
        match parse_ipv4_chars(chars.as_slice(), 0, chars.len()) {
            Some(octets) => Some(IpAddress::V4(octets)),
            None => match parse_ipv6_chars(chars.as_slice()) {
                Some(groups) => {
                    let mut octets: [u8; 16] = [0u8; 16];
                    let mut i: usize = 0;
                    while i < 8
                        invariant
                            i <= 8,
                            forall|k: int|
                                0 <= k < 2 * i ==> #[trigger] octets@[k] == octets_of_groups(
                                    groups@,
                                )[k],
                        decreases 8 - i,
                    {
                        octets[2 * i] = (groups[i] / 256) as u8;
                        octets[2 * i + 1] = (groups[i] % 256) as u8;
                        i += 1;
                    }
                    assert(octets@ =~= octets_of_groups(groups@));
                    Some(IpAddress::V6(octets))
                },
                None => None,
            },
        }
    }

    /// Whether two addresses are the same.
    pub fn same(&self, other: &IpAddress) -> (r: bool)
        ensures
            r == (self@ == other@),
    {
        match (self, other) {
            (IpAddress::V4(a), IpAddress::V4(b)) => same_octets(a, b),
            (IpAddress::V6(a), IpAddress::V6(b)) => same_octets(a, b),
            _ => false,
        }
    }

    /// Whether the address is the wildcard of its version.
    pub fn is_unspecified(&self) -> (r: bool)
        ensures
            r == self@.unspecified(),
    {
        match self {
            IpAddress::V4(octets) => all_zero(octets),
            IpAddress::V6(octets) => all_zero(octets),
        }
    }
}

/// Whether two lists of octets are the same.
pub fn same_octets<const N: usize>(a: &[u8; N], b: &[u8; N]) -> (r: bool)
    ensures
        r == (a@ == b@),
{
    let mut i: usize = 0;
    while i < N
        invariant
            i <= N,
            forall|k: int| 0 <= k < i ==> a@[k] == b@[k],
        decreases N - i,
    {
        if a[i] != b[i] {
            return false;
        }
        i += 1;
    }
    assert(a@ =~= b@);
    true
}

/// Whether all octets are zero.
fn all_zero<const N: usize>(octets: &[u8; N]) -> (r: bool)
    ensures
        r == all_zeros(octets@),
{
    let mut i: usize = 0;
    while i < N
        invariant
            i <= N,
            forall|k: int| 0 <= k < i ==> #[trigger] octets@[k] == 0,
        decreases N - i,
    {
        if octets[i] != 0 {
            return false;
        }
        i += 1;
    }
    true
}

impl SocketModel {
    /// A socket address without flow information and scope.
    pub open spec fn plain(ip: IpModel, port: u16) -> SocketModel {
        SocketModel { ip, port, flow_info: 0, scope_id: 0 }
    }

    /// The notation of a socket address: an address of version six stands in square brackets,
    /// together with its scope where it has one.
    pub open spec fn text(self) -> Seq<char> {
        let scope = if self.scope_id == 0 {
            Seq::empty()
        } else {
            seq!['%'] + decimal(self.scope_id as nat)
        };
        match self.ip {
            IpModel::V4(_) => self.ip.text().push(':') + decimal(self.port as nat),
            IpModel::V6(_) => (seq!['['] + self.ip.text() + scope).push(']').push(':') + decimal(
                self.port as nat,
            ),
        }
    }
}

impl SocketAddress {
    /// A socket address without flow information and scope.
    pub fn new(ip: IpAddress, port: u16) -> (r: SocketAddress)
        ensures
            r@ == SocketModel::plain(ip@, port),
            r.ip == ip,
            r.port == port,
    {
        SocketAddress { ip, port, flow_info: 0, scope_id: 0 }
    }

    /// The notation of a socket address.
    pub fn to_text(&self) -> (r: String)
        ensures
            r@ == self@.text(),
    {
        let ip = self.ip.to_text();
        let port = decimal_text(self.port as u64);
        let mut text = String::new();
        match self.ip {
            IpAddress::V4(_) => {
                text.append(ip.as_str());
                text.push(':');
                text.append(port.as_str());
            },
            IpAddress::V6(_) => {
                text.push('[');
                text.append(ip.as_str());
                if self.scope_id != 0 {
                    let scope = decimal_text(self.scope_id as u64);
                    text.push('%');
                    text.append(scope.as_str());
                }
                text.push(']');
                text.push(':');
                text.append(port.as_str());
            },
        }
        assert(text@ =~= self@.text());
        text
    }

    /// Whether two socket addresses are the same.
    pub fn same(&self, other: &SocketAddress) -> (r: bool)
        ensures
            r == (self@ == other@),
    {
        if self.port != other.port || !self.ip.same(&other.ip) {
            return false;
        }
        match self.ip {
            IpAddress::V4(_) => true,
            IpAddress::V6(_) => self.flow_info == other.flow_info && self.scope_id
                == other.scope_id,
        }
    }
}

impl PartialEq for SocketAddress {
    fn eq(&self, other: &SocketAddress) -> (r: bool) {
        self.same(other)
    }
}

impl PartialEqSpecImpl for SocketAddress {
    open spec fn obeys_eq_spec() -> bool {
        true
    }

    open spec fn eq_spec(&self, other: &SocketAddress) -> bool {
        self@ == other@
    }
}

impl Eq for SocketAddress {

}

impl TableKey for SocketAddress {
    fn same_key(&self, other: &SocketAddress) -> (r: bool) {
        self.same(other)
    }

    fn copy_key(&self) -> (r: SocketAddress) {
        *self
    }
}

} // verus!
