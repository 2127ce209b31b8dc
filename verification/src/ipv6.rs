//! The textual notation of IPv6 addresses.

use vstd::prelude::*;

use crate::address::{ipv4_parse, ipv4_text, law_ipv4_text_parses, parse_ipv4_chars, push_ipv4};
use crate::numeral::{
    is_digit, is_numeral, lemma_numeral_len, lemma_numeral_value, numeral, numeral_value,
    parse_chars, push_numeral,
};
use crate::text::{join, lemma_split_of_join, split, split_chars, views};

verus! {

/// The value of a group of one to four hexadecimal digits.
pub open spec fn group_of(p: Seq<char>) -> Option<u16> {
    if is_numeral(p, 16) && p.len() <= 4 {
        Some(numeral_value(p, 16) as u16)
    } else {
        None
    }
}

/// The two groups that an embedded dotted decimal notation stands for.
pub open spec fn groups_of_ipv4(octets: Seq<u8>) -> Seq<u16> {
    seq![
        (octets[0] as u16 * 256 + octets[1] as u16) as u16,
        (octets[2] as u16 * 256 + octets[3] as u16) as u16,
    ]
}

/// The groups that a list of pieces stands for; with `tail` the last piece may be dotted decimal.
pub open spec fn piece_groups(parts: Seq<Seq<char>>, tail: bool) -> Option<Seq<u16>> {
    let n = parts.len() as int;
    if n == 0 {
        Some(Seq::empty())
    } else if exists|i: int| 0 <= i < n - 1 && group_of(#[trigger] parts[i]) is None {
        None
    } else {
        let init = Seq::new((n - 1) as nat, |i: int| group_of(parts[i])->0);
        if group_of(parts[n - 1]) is Some {
            Some(init.push(group_of(parts[n - 1])->0))
        } else if tail && ipv4_parse(parts[n - 1]) is Some {
            Some(init + groups_of_ipv4(ipv4_parse(parts[n - 1])->0))
        } else {
            None
        }
    }
}

/// The groups of a text that may be empty.
pub open spec fn list_groups(t: Seq<char>, tail: bool) -> Option<Seq<u16>> {
    if t.len() == 0 {
        Some(Seq::empty())
    } else {
        piece_groups(split(t, ':'), tail)
    }
}

/// Whether two colons stand at position `k`.
pub open spec fn is_gap(t: Seq<char>, k: int) -> bool {
    0 <= k && k + 1 < t.len() && t[k] == ':' && t[k + 1] == ':'
}

/// Whether the first two adjacent colons stand at position `k`.
pub open spec fn is_first_gap(t: Seq<char>, k: int) -> bool {
    is_gap(t, k) && forall|j: int| 0 <= j < k ==> !#[trigger] is_gap(t, j)
}

/// Zero groups.
pub open spec fn zero_groups(n: nat) -> Seq<u16> {
    Seq::new(n, |i: int| 0u16)
}

/// The groups of a notation whose zero run is written as two colons at `k`.
pub open spec fn gap_groups(t: Seq<char>, k: int) -> Option<Seq<u16>> {
    let head = list_groups(t.subrange(0, k), false);
    let tail = list_groups(t.subrange(k + 2, t.len() as int), true);
    if head is Some && tail is Some && head->0.len() + tail->0.len() <= 7 {
        Some(head->0 + zero_groups((8 - head->0.len() - tail->0.len()) as nat) + tail->0)
    } else {
        None
    }
}

/// The eight groups that a text stands for in IPv6 notation.
pub open spec fn ipv6_parse(t: Seq<char>) -> Option<Seq<u16>> {
    if exists|k: int| is_first_gap(t, k) {
        gap_groups(t, choose|k: int| is_first_gap(t, k))
    } else {
        let groups = piece_groups(split(t, ':'), true);
        if groups is Some && groups->0.len() == 8 {
            groups
        } else {
            None
        }
    }
}

/// Whether `len` groups from `start` on are all zero.
pub open spec fn zero_run(groups: Seq<u16>, start: int, len: int) -> bool {
    0 <= start && 0 <= len && start + len <= groups.len() && forall|i: int|
        start <= i < start + len ==> #[trigger] groups[i] == 0
}

/// Whether this is the first of the longest runs of zero groups.
pub open spec fn longest_zero_run(groups: Seq<u16>, start: int, len: int) -> bool {
    zero_run(groups, start, len) && forall|s: int, l: int| #[trigger]
        zero_run(groups, s, l) ==> l < len || (l == len && (s >= start || len == 0))
}

/// The hexadecimal notations of the groups.
pub open spec fn group_pieces(groups: Seq<u16>) -> Seq<Seq<char>> {
    groups.map_values(|g: u16| numeral(g as nat, 16))
}

/// The groups in hexadecimal notation, with colons between them.
pub open spec fn groups_text(groups: Seq<u16>) -> Seq<char> {
    join(group_pieces(groups), ':')
}

/// Whether the groups are those of an IPv4-mapped address.
pub open spec fn is_mapped(groups: Seq<u16>) -> bool {
    zero_run(groups, 0, 5) && groups[5] == 0xffff
}

/// The four octets of the last two groups.
pub open spec fn mapped_octets(groups: Seq<u16>) -> Seq<u8> {
    seq![
        (groups[6] / 256) as u8,
        (groups[6] % 256) as u8,
        (groups[7] / 256) as u8,
        (groups[7] % 256) as u8,
    ]
}

/// The canonical notation of eight groups: the mapped form for an IPv4-mapped address;
/// else the first longest run of two or more zero groups is written as two colons.
pub open spec fn ipv6_text(groups: Seq<u16>) -> Seq<char> {
    if is_mapped(groups) {
        seq![':', ':'] + join(seq![numeral(0xffff, 16), ipv4_text(mapped_octets(groups))], ':')
    } else if exists|s: int, l: int| l >= 2 && #[trigger] longest_zero_run(groups, s, l) {
        let (s, l) = choose|s: int, l: int| l >= 2 && #[trigger] longest_zero_run(groups, s, l);
        groups_text(groups.subrange(0, s)) + seq![':', ':'] + groups_text(
            groups.subrange(s + l, groups.len() as int),
        )
    } else {
        groups_text(groups)
    }
}

/// A group reads back from its notation.
proof fn lemma_group_of(g: u16)
    ensures
        group_of(numeral(g as nat, 16)) == Some(g),
        numeral(g as nat, 16).len() >= 1,
        !numeral(g as nat, 16).contains(':'),
{
    lemma_numeral_value(g as nat, 16);
    assert(vstd::arithmetic::power::pow(16, 4) == 65536) by {
        reveal_with_fuel(vstd::arithmetic::power::pow, 5);
    }
    lemma_numeral_len(g as nat, 16, 4);
    let p = numeral(g as nat, 16);
    if p.contains(':') {
        let k = choose|k: int| 0 <= k < p.len() && p[k] == ':';
        assert(is_digit(p[k], 16));
    }
}

/// A non-empty list of groups reads back from its notation.
proof fn lemma_groups_read_back(groups: Seq<u16>, tail: bool)
    ensures
        list_groups(groups_text(groups), tail) == Some(groups),
        groups.len() > 0 ==> piece_groups(split(groups_text(groups), ':'), tail) == Some(groups),
        groups.len() > 0 ==> groups_text(groups).len() > 0,
        forall|k: int| !is_gap(groups_text(groups), k),
        groups.len() > 0 ==> groups_text(groups)[groups_text(groups).len() - 1] != ':',
        groups.len() > 0 ==> groups_text(groups)[0] != ':',
{
    let pieces = group_pieces(groups);
    assert forall|i: int| 0 <= i < pieces.len() implies !(#[trigger] pieces[i]).contains(':')
        && pieces[i].len() >= 1 && group_of(pieces[i]) == Some(groups[i]) by {
        lemma_group_of(groups[i]);
    }
    if groups.len() > 0 {
        lemma_split_of_join(pieces, ':');
        lemma_join_has_no_gap(pieces);
        let n = pieces.len() as int;
        let init = Seq::new((n - 1) as nat, |i: int| group_of(pieces[i])->0);
        assert(init.push(group_of(pieces[n - 1])->0) =~= groups);
    } else {
        assert(groups_text(groups) == Seq::<char>::empty());
        assert(groups == Seq::<u16>::empty());
    }
}

/// Joined non-empty pieces without colons hold no two adjacent colons, and none at the ends.
pub proof fn lemma_join_has_no_gap(pieces: Seq<Seq<char>>)
    requires
        pieces.len() >= 1,
        forall|i: int|
            0 <= i < pieces.len() ==> !(#[trigger] pieces[i]).contains(':') && pieces[i].len() >= 1,
    ensures
        join(pieces, ':').len() >= 1,
        forall|k: int| !is_gap(join(pieces, ':'), k),
        join(pieces, ':')[join(pieces, ':').len() - 1] != ':',
        join(pieces, ':')[0] != ':',
    decreases pieces.len(),
{
    let t = join(pieces, ':');
    let last = pieces[pieces.len() - 1];
    assert(!last.contains(':') && last.len() >= 1);
    assert forall|i: int| 0 <= i < last.len() implies last[i] != ':' by {
        if last[i] == ':' {
            assert(last.contains(':'));
        }
    }
    if pieces.len() > 1 {
        let init = pieces.subrange(0, pieces.len() - 1);
        assert forall|i: int| 0 <= i < init.len() implies !(#[trigger] init[i]).contains(':')
            && init[i].len() >= 1 by {
            assert(init[i] == pieces[i]);
        }
        lemma_join_has_no_gap(init);
        let head = join(init, ':');
        assert(t == head.push(':') + last);
        assert forall|k: int| !is_gap(t, k) by {
            if is_gap(t, k) {
                if k + 1 < head.len() {
                    assert(is_gap(head, k));
                } else if k + 1 == head.len() {
                    assert(t[k] == head[head.len() - 1]);
                } else {
                    assert(t[k + 1] == last[k + 1 - head.len() - 1]);
                }
            }
        }
    }
}

/// Where a first gap is known, `choose` finds it.
pub proof fn lemma_first_gap_unique(t: Seq<char>, k: int)
    requires
        is_first_gap(t, k),
    ensures
        (choose|j: int| is_first_gap(t, j)) == k,
{
    let j = choose|j: int| is_first_gap(t, j);
    if j < k {
        assert(is_gap(t, j));
    } else if k < j {
        assert(is_gap(t, k));
    }
}

/// Dotted decimal notation holds digits and dots alone.
pub proof fn lemma_ipv4_text_chars(octets: Seq<u8>)
    requires
        octets.len() == 4,
    ensures
        !ipv4_text(octets).contains(':'),
        ipv4_text(octets).contains('.'),
        ipv4_text(octets).len() >= 1,
{
    let p = crate::address::ipv4_pieces(octets);
    assert forall|i: int, c: char| 0 <= i < 4 && #[trigger] p[i].contains(c) implies is_digit(
        c,
        10,
    ) by {
        lemma_numeral_value(octets[i] as nat, 10);
        let k = choose|k: int| 0 <= k < p[i].len() && p[i][k] == c;
        assert(is_digit(p[i][k], 10));
    }
    let p1 = p.subrange(0, 3);
    let p2 = p1.subrange(0, 2);
    let p3 = p2.subrange(0, 1);
    assert(join(p3, '.') == p[0]);
    assert(join(p2, '.') == p[0].push('.') + p[1]);
    assert(join(p1, '.') == (p[0].push('.') + p[1]).push('.') + p[2]);
    let t = ipv4_text(octets);
    assert(t == ((p[0].push('.') + p[1]).push('.') + p[2]).push('.') + p[3]);
    assert(t[p[0].len() as int] == '.');
    if t.contains(':') {
        let k = choose|k: int| 0 <= k < t.len() && t[k] == ':';
        let n0 = p[0].len() as int;
        let n1 = n0 + 1 + p[1].len();
        let n2 = n1 + 1 + p[2].len();
        if k < n0 {
            assert(p[0][k] == ':' && p[0].contains(':'));
        } else if n0 < k < n1 {
            assert(p[1][k - n0 - 1] == ':' && p[1].contains(':'));
        } else if n1 < k < n2 {
            assert(p[2][k - n1 - 1] == ':' && p[2].contains(':'));
        } else if n2 < k {
            assert(p[3][k - n2 - 1] == ':' && p[3].contains(':'));
        }
    }
}

/// The notation of an IPv4-mapped address parses to its groups.
proof fn lemma_mapped_text_parses(groups: Seq<u16>)
    requires
        groups.len() == 8,
        is_mapped(groups),
    ensures
        ipv6_parse(ipv6_text(groups)) == Some(groups),
{
    let t = ipv6_text(groups);
    let octets = mapped_octets(groups);
    let v4 = ipv4_text(octets);
    let lead = numeral(0xffff, 16);
    let pieces = seq![lead, v4];
    lemma_group_of(0xffff);
    lemma_ipv4_text_chars(octets);
    law_ipv4_text_parses(octets);
    lemma_split_of_join(pieces, ':');
    assert(t == seq![':', ':'] + join(pieces, ':'));
    assert(is_first_gap(t, 0));
    lemma_first_gap_unique(t, 0);
    let tail = t.subrange(2, t.len() as int);
    assert(tail == join(pieces, ':'));
    assert(t.subrange(0, 0) == Seq::<char>::empty());
    assert(group_of(v4) is None) by {
        let k = choose|k: int| 0 <= k < v4.len() && v4[k] == '.';
        assert(!is_digit(v4[k], 16));
    }
    let init = Seq::new(1, |i: int| group_of(pieces[i])->0);
    assert(join(pieces, ':').len() > 0) by {
        lemma_join_has_no_gap(pieces);
    }
    assert(list_groups(tail, true) == Some(init + groups_of_ipv4(octets)));
    let read = Seq::<u16>::empty() + zero_groups(5) + (init + groups_of_ipv4(octets));
    assert(read.len() == 8);
    assert(read =~= groups) by {
        assert(init[0] == 0xffff);
        assert(groups_of_ipv4(octets)[0] == groups[6]);
        assert(groups_of_ipv4(octets)[1] == groups[7]);
        assert(groups[0] == 0 && groups[1] == 0 && groups[2] == 0 && groups[3] == 0 && groups[4]
            == 0);
    }
}

/// A notation with a zero run written as two colons parses to its groups.
proof fn lemma_gap_text_parses(groups: Seq<u16>, s: int, l: int)
    requires
        groups.len() == 8,
        l >= 2,
        zero_run(groups, s, l),
    ensures
        ipv6_parse(
            groups_text(groups.subrange(0, s)) + seq![':', ':'] + groups_text(
                groups.subrange(s + l, 8),
            ),
        ) == Some(groups),
{
    let head = groups.subrange(0, s);
    let tail = groups.subrange(s + l, 8);
    let h = groups_text(head);
    let e = groups_text(tail);
    let t = h + seq![':', ':'] + e;
    lemma_groups_read_back(head, false);
    lemma_groups_read_back(tail, true);
    let k = h.len() as int;
    assert forall|j: int| 0 <= j < k implies !#[trigger] is_gap(t, j) by {
        if is_gap(t, j) {
            if j + 1 < k {
                assert(is_gap(h, j));
            } else {
                assert(t[j] == h[k - 1]);
            }
        }
    }
    assert(is_first_gap(t, k));
    lemma_first_gap_unique(t, k);
    assert(t.subrange(0, k) == h);
    assert(t.subrange(k + 2, t.len() as int) == e);
    assert(head + zero_groups(l as nat) + tail =~= groups);
}

/// The canonical notation of any eight groups parses to these groups.
pub proof fn law_ipv6_text_parses(groups: Seq<u16>)
    requires
        groups.len() == 8,
    ensures
        ipv6_parse(ipv6_text(groups)) == Some(groups),
{
    let t = ipv6_text(groups);
    if is_mapped(groups) {
        lemma_mapped_text_parses(groups);
    } else if exists|s: int, l: int| l >= 2 && #[trigger] longest_zero_run(groups, s, l) {
        let (s, l) = choose|s: int, l: int| l >= 2 && #[trigger] longest_zero_run(groups, s, l);
        lemma_gap_text_parses(groups, s, l);
    } else {
        lemma_groups_read_back(groups, true);
        assert forall|k: int| !is_first_gap(t, k) by {
            assert(!is_gap(groups_text(groups), k));
        }
    }
}

/// Reads one group of hexadecimal digits.
fn parse_group(p: &Vec<char>) -> (r: Option<u16>)
    ensures
        r == group_of(p@),
{
    if p.len() == 0 || p.len() > 4 || p[0] == '+' {
        assert(group_of(p@) is None) by {
            if p@.len() > 0 && p@[0] == '+' {
                assert(!is_digit(p@[0], 16));
            }
        }
        return None;
    }
    assert(p@.subrange(0, p@.len() as int) == p@);
    proof {
        lemma_short_numeral_bound(p@);
    }
    match parse_chars(p.as_slice(), 0, 16, 65535) {
        Some(v) => Some(v as u16),
        None => None,
    }
}

/// Up to four hexadecimal digits have a value that fits in a group.
pub proof fn lemma_short_numeral_bound(p: Seq<char>)
    requires
        p.len() <= 4,
    ensures
        is_numeral(p, 16) ==> numeral_value(p, 16) <= 65535,
{
    if is_numeral(p, 16) {
        lemma_numeral_bound(p, 4);
        assert(vstd::arithmetic::power::pow(16, 4) == 65536) by {
            reveal_with_fuel(vstd::arithmetic::power::pow, 5);
        }
    }
}

/// A digit string of at most `digits` hexadecimal digits is below that power of sixteen.
proof fn lemma_numeral_bound(p: Seq<char>, digits: nat)
    requires
        p.len() <= digits,
        forall|i: int| 0 <= i < p.len() ==> is_digit(#[trigger] p[i], 16),
    ensures
        numeral_value(p, 16) < vstd::arithmetic::power::pow(16, digits),
    decreases p.len(),
{
    reveal(vstd::arithmetic::power::pow);
    vstd::arithmetic::power::lemma_pow_positive(16, digits);
    if p.len() > 0 {
        let head = p.subrange(0, p.len() - 1);
        assert(is_digit(p[p.len() - 1], 16));
        assert forall|i: int| 0 <= i < head.len() implies is_digit(#[trigger] head[i], 16) by {
            assert(head[i] == p[i]);
        }
        lemma_numeral_bound(head, (digits - 1) as nat);
    }
}

/// Reads a list of pieces as groups.
fn parse_pieces(pieces: &Vec<Vec<char>>, tail: bool) -> (r: Option<Vec<u16>>)
    ensures
        r is Some == piece_groups(views(pieces@), tail) is Some,
        r is Some ==> r->0@ == piece_groups(views(pieces@), tail)->0,
{
    let ghost parts = views(pieces@);
    let mut groups: Vec<u16> = Vec::new();
    if pieces.len() == 0 {
        return Some(groups);
    }
    let last: usize = pieces.len() - 1;
    let mut i: usize = 0;
    while i < last
        invariant
            i <= last,
            last == pieces@.len() - 1,
            parts == views(pieces@),
            groups@.len() == i,
            forall|k: int| 0 <= k < i ==> group_of(#[trigger] parts[k]) == Some(groups@[k]),
        decreases last - i,
    {
        assert(parts[i as int] == pieces@[i as int]@);
        match parse_group(&pieces[i]) {
            Some(g) => {
                groups.push(g);
            },
            None => {
                return None;
            },
        }
        i += 1;
    }
    assert(parts[last as int] == pieces@[last as int]@);
    let ghost init = Seq::new(last as nat, |k: int| group_of(parts[k])->0);
    assert(groups@ =~= init);
    match parse_group(&pieces[last]) {
        Some(g) => {
            groups.push(g);
            Some(groups)
        },
        None => {
            let piece = &pieces[last];
            assert(piece@.subrange(0, piece@.len() as int) == piece@);
            if !tail {
                return None;
            }
            match parse_ipv4_chars(piece.as_slice(), 0, piece.len()) {
                Some(octets) => {
                    groups.push(octets[0] as u16 * 256 + octets[1] as u16);
                    groups.push(octets[2] as u16 * 256 + octets[3] as u16);
                    assert(groups@ =~= init + groups_of_ipv4(octets@));
                    Some(groups)
                },
                None => None,
            }
        },
    }
}

/// Reads a part of a notation that may be empty.
fn parse_list(chars: &[char], from: usize, to: usize, tail: bool) -> (r: Option<Vec<u16>>)
    requires
        from <= to <= chars@.len(),
    ensures
        r is Some == list_groups(chars@.subrange(from as int, to as int), tail) is Some,
        r is Some ==> r->0@ == list_groups(chars@.subrange(from as int, to as int), tail)->0,
{
    if from == to {
        return Some(Vec::new());
    }
    let pieces = split_chars(chars, from, to, ':');
    parse_pieces(&pieces, tail)
}

/// The position of the first two adjacent colons.
fn find_gap(chars: &[char]) -> (r: Option<usize>)
    ensures
        r is Some ==> is_first_gap(chars@, r->0 as int),
        r is None ==> forall|k: int| !is_first_gap(chars@, k),
{
    let mut i: usize = 0;
    while i < chars.len() && 1 < chars.len() - i
        invariant
            i <= chars.len(),
            forall|j: int| 0 <= j < i ==> !#[trigger] is_gap(chars@, j),
        decreases chars.len() - i,
    {
        if chars[i] == ':' && chars[i + 1] == ':' {
            return Some(i);
        }
        i += 1;
    }
    None
}

/// Reads IPv6 notation as eight groups.
pub fn parse_ipv6_chars(chars: &[char]) -> (r: Option<[u16; 8]>)
    ensures
        r is Some == ipv6_parse(chars@) is Some,
        r is Some ==> r->0@ == ipv6_parse(chars@)->0,
{
    let mut groups: [u16; 8] = [0u16; 8];
    match find_gap(chars) {
        Some(k) => {
            proof {
                lemma_first_gap_unique(chars@, k as int);
            }
            assert(k + 1 < chars.len());
            let head = match parse_list(chars, 0, k, false) {
                Some(head) => head,
                None => {
                    return None;
                },
            };
            let tail = match parse_list(chars, k + 2, chars.len(), true) {
                Some(tail) => tail,
                None => {
                    return None;
                },
            };
            if head.len() > 7 || tail.len() > 7 - head.len() {
                return None;
            }
            let mut i: usize = 0;
            while i < head.len()
                invariant
                    i <= head@.len() <= 7,
                    forall|j: int| 0 <= j < i ==> #[trigger] groups@[j] == head@[j],
                    forall|j: int| i <= j < 8 ==> #[trigger] groups@[j] == 0,
                decreases head.len() - i,
            {
                groups[i] = head[i];
                i += 1;
            }
            let base: usize = 8 - tail.len();
            let mut n: usize = 0;
            while n < tail.len()
                invariant
                    n <= tail@.len(),
                    head@.len() + tail@.len() <= 7,
                    base == 8 - tail@.len(),
                    forall|j: int| 0 <= j < head@.len() ==> #[trigger] groups@[j] == head@[j],
                    forall|j: int| head@.len() <= j < base ==> #[trigger] groups@[j] == 0,
                    forall|j: int| base <= j < base + n ==> #[trigger] groups@[j] == tail@[j - base],
                decreases tail.len() - n,
            {
                groups[base + n] = tail[n];
                n += 1;
            }
            assert(groups@ =~= head@ + zero_groups((8 - head@.len() - tail@.len()) as nat) + tail@);
            Some(groups)
        },
        None => {
            let pieces = split_chars(chars, 0, chars.len(), ':');
            assert(chars@.subrange(0, chars@.len() as int) == chars@);
            let list = match parse_pieces(&pieces, true) {
                Some(list) => list,
                None => {
                    return None;
                },
            };
            if list.len() != 8 {
                return None;
            }
            let mut i: usize = 0;
            while i < 8
                invariant
                    i <= 8,
                    list@.len() == 8,
                    forall|j: int| 0 <= j < i ==> #[trigger] groups@[j] == list@[j],
                decreases 8 - i,
            {
                groups[i] = list[i];
                i += 1;
            }
            assert(groups@ =~= list@);
            Some(groups)
        },
    }
}

/// The first of the longest runs of zero groups.
fn find_zero_run(groups: &[u16; 8]) -> (r: (usize, usize))
    ensures
        r.0 + r.1 <= 8,
        longest_zero_run(groups@, r.0 as int, r.1 as int),
{
    let mut best: usize = 0;
    let mut best_len: usize = 0;
    let mut start: usize = 0;
    while start < 8
        invariant
            start <= 8,
            best + best_len <= 8,
            zero_run(groups@, best as int, best_len as int),
            forall|s: int, l: int| #[trigger]
                zero_run(groups@, s, l) && s < start ==> l < best_len || (l == best_len && (s >= best
                    || best_len == 0)),
            best_len > 0 ==> best < start,
        decreases 8 - start,
    {
        let mut len: usize = 0;
        while start + len < 8 && groups[start + len] == 0
            invariant
                start < 8,
                start + len <= 8,
                zero_run(groups@, start as int, len as int),
            decreases 8 - len,
        {
            len += 1;
        }
        assert forall|l: int| #[trigger] zero_run(groups@, start as int, l) implies l <= len by {
            if l > len {
                assert(groups@[start + len] == 0);
            }
        }
        if len > best_len {
            best = start;
            best_len = len;
        }
        start += 1;
    }
    assert forall|s: int, l: int| #[trigger] zero_run(groups@, s, l) implies l < best_len || (l
        == best_len && (s >= best || best_len == 0)) by {
        if s >= 8 {
            assert(l == 0);
        }
    }
    (best, best_len)
}

/// Appends the groups from `from` to `to` with colons between them.
fn push_groups(out: &mut String, groups: &[u16; 8], from: usize, to: usize)
    requires
        from <= to <= 8,
    ensures
        final(out)@ == old(out)@ + groups_text(groups@.subrange(from as int, to as int)),
{
    let ghost start = out@;
    let ghost pieces = group_pieces(groups@.subrange(from as int, to as int));
    if from == to {
        assert(join(pieces, ':') == Seq::<char>::empty());
        assert(start + Seq::<char>::empty() == start);
        return;
    }
    push_numeral(out, groups[from] as u64, 16);
    assert(join(pieces.subrange(0, 1), ':') == pieces[0]);
    let mut i: usize = from + 1;
    while i < to
        invariant
            from < i <= to <= 8,
            pieces == group_pieces(groups@.subrange(from as int, to as int)),
            out@ == start + join(pieces.subrange(0, i - from), ':'),
        decreases to - i,
    {
        out.push(':');
        push_numeral(out, groups[i] as u64, 16);
        proof {
            let longer = pieces.subrange(0, i - from + 1);
            assert(longer.subrange(0, longer.len() - 1) == pieces.subrange(0, i - from));
            let head = join(pieces.subrange(0, i - from), ':');
            assert(join(longer, ':') == head.push(':') + pieces[i - from]);
            assert(out@ =~= start + join(longer, ':'));
        }
        i += 1;
    }
    assert(pieces.subrange(0, to - from) == pieces);
}

/// The longest zero run is determined by the groups, once there is one.
proof fn lemma_longest_zero_run_unique(groups: Seq<u16>, s1: int, l1: int, s2: int, l2: int)
    requires
        longest_zero_run(groups, s1, l1),
        longest_zero_run(groups, s2, l2),
        l2 >= 2,
    ensures
        s1 == s2,
        l1 == l2,
{
    assert(zero_run(groups, s1, l1));
    assert(zero_run(groups, s2, l2));
}

/// Appends the canonical notation of eight groups.
pub fn push_ipv6(out: &mut String, groups: &[u16; 8])
    ensures
        final(out)@ == old(out)@ + ipv6_text(groups@),
{
    let ghost start = out@;
    let (run, len) = find_zero_run(groups);
    if groups[0] == 0 && groups[1] == 0 && groups[2] == 0 && groups[3] == 0 && groups[4] == 0
        && groups[5] == 0xffff {
        let octets: [u8; 4] = [
            (groups[6] / 256) as u8,
            (groups[6] % 256) as u8,
            (groups[7] / 256) as u8,
            (groups[7] % 256) as u8,
        ];
        assert(octets@ =~= mapped_octets(groups@));
        assert(is_mapped(groups@));
        out.push(':');
        out.push(':');
        push_numeral(out, 0xffff, 16);
        out.push(':');
        push_ipv4(out, &octets);
        proof {
            let lead = numeral(0xffff, 16);
            let v4 = ipv4_text(octets@);
            let pieces = seq![lead, v4];
            assert(pieces.subrange(0, 1) == seq![lead]);
            assert(join(seq![lead], ':') == lead);
            assert(join(pieces, ':') == lead.push(':') + v4);
            assert(out@ =~= start + (seq![':', ':'] + (lead.push(':') + v4)));
        }
        return;
    }
    assert(!is_mapped(groups@)) by {
        if is_mapped(groups@) {
            assert(groups@[0] == 0 && groups@[1] == 0 && groups@[2] == 0 && groups@[3] == 0
                && groups@[4] == 0);
        }
    }
    if len >= 2 {
        push_groups(out, groups, 0, run);
        out.push(':');
        out.push(':');
        push_groups(out, groups, run + len, 8);
        proof {
            let (s, l) = choose|s: int, l: int|
                l >= 2 && #[trigger] longest_zero_run(groups@, s, l);
            lemma_longest_zero_run_unique(groups@, run as int, len as int, s, l);
            let h = groups_text(groups@.subrange(0, run as int));
            let e = groups_text(groups@.subrange(run + len, 8));
            assert(out@ =~= start + (h + seq![':', ':'] + e));
        }
    } else {
        push_groups(out, groups, 0, 8);
        proof {
            assert(groups@.subrange(0, 8) == groups@);
            assert forall|s: int, l: int| l >= 2 implies !#[trigger] longest_zero_run(
                groups@,
                s,
                l,
            ) by {
                if longest_zero_run(groups@, s, l) {
                    lemma_longest_zero_run_unique(groups@, run as int, len as int, s, l);
                }
            }
        }
    }
}

} // verus!
