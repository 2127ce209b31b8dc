//! Which texts stand for an address of version six.

use vstd::prelude::*;

use crate::address::{ipv4_text, law_ipv4_text_parses};
use crate::ipv6::{
    gap_groups, group_of, ipv6_parse, is_first_gap, is_gap, lemma_first_gap_unique,
    lemma_ipv4_text_chars, lemma_join_has_no_gap, lemma_short_numeral_bound, list_groups,
    piece_groups,
};
use crate::numeral::{is_digit, numeral_value};
use crate::text::{join, lemma_split_of_join, split};

verus! {

/// A group is one to four hexadecimal digits of either case, and has their value.
pub proof fn law_group(p: Seq<char>)
    ensures
        group_of(p) is Some <==> 1 <= p.len() <= 4 && forall|i: int|
            0 <= i < p.len() ==> is_digit(#[trigger] p[i], 16),
        group_of(p) matches Some(g) ==> g == numeral_value(p, 16),
{
    if p.len() <= 4 {
        lemma_short_numeral_bound(p);
    }
}

/// Whether pieces of a text are groups with the given values.
pub open spec fn spell_groups(pieces: Seq<Seq<char>>, groups: Seq<u16>) -> bool {
    &&& pieces.len() == groups.len()
    &&& forall|i: int|
        0 <= i < pieces.len() ==> group_of(#[trigger] pieces[i]) == Some(groups[i])
}

/// Groups are neither empty nor hold a colon.
proof fn lemma_spelled(pieces: Seq<Seq<char>>, groups: Seq<u16>)
    requires
        spell_groups(pieces, groups),
    ensures
        forall|i: int|
            0 <= i < pieces.len() ==> !(#[trigger] pieces[i]).contains(':') && pieces[i].len() >= 1,
        piece_groups(pieces, true) == Some(groups),
        piece_groups(pieces, false) == Some(groups),
{
    assert forall|i: int| 0 <= i < pieces.len() implies !(#[trigger] pieces[i]).contains(':')
        && pieces[i].len() >= 1 by {
        let p = pieces[i];
        assert(group_of(p) == Some(groups[i]));
        if p.contains(':') {
            let k = choose|k: int| 0 <= k < p.len() && p[k] == ':';
            assert(is_digit(p[k], 16));
        }
    }
    let n = pieces.len() as int;
    if n > 0 {
        assert forall|i: int| 0 <= i < n implies group_of(#[trigger] pieces[i]) is Some by {}
        let init = Seq::new((n - 1) as nat, |i: int| group_of(pieces[i])->0);
        assert forall|i: int| 0 <= i < n - 1 implies init[i] == groups[i] by {
            assert(group_of(pieces[i]) == Some(groups[i]));
        }
        assert(group_of(pieces[n - 1]) == Some(groups[n - 1]));
        assert(init.push(groups[n - 1]) =~= groups);
    } else {
        assert(groups =~= Seq::<u16>::empty());
    }
}

/// Eight groups with colons between them stand for an address, and no other number of them does.
pub proof fn law_full_form(pieces: Seq<Seq<char>>, groups: Seq<u16>)
    requires
        spell_groups(pieces, groups),
        pieces.len() >= 1,
    ensures
        groups.len() == 8 ==> ipv6_parse(join(pieces, ':')) == Some(groups),
        groups.len() != 8 ==> ipv6_parse(join(pieces, ':')) is None,
{
    let t = join(pieces, ':');
    lemma_spelled(pieces, groups);
    lemma_join_has_no_gap(pieces);
    lemma_split_of_join(pieces, ':');
    assert forall|k: int| !(#[trigger] is_first_gap(t, k)) by {
        assert(!is_gap(t, k));
    }
}

/// The groups of a part of a text around two colons.
proof fn lemma_part(pieces: Seq<Seq<char>>, groups: Seq<u16>, tail: bool)
    requires
        spell_groups(pieces, groups),
    ensures
        list_groups(join(pieces, ':'), tail) == Some(groups),
        forall|k: int| !is_gap(join(pieces, ':'), k),
        join(pieces, ':').len() > 0 ==> join(pieces, ':')[join(pieces, ':').len() - 1] != ':'
            && join(pieces, ':')[0] != ':',
{
    lemma_spelled(pieces, groups);
    if pieces.len() > 0 {
        lemma_join_has_no_gap(pieces);
        lemma_split_of_join(pieces, ':');
    } else {
        assert(groups =~= Seq::<u16>::empty());
    }
}

/// Two colons stand for as many zero groups as are missing, which is one at least.
pub proof fn law_short_form(
    front: Seq<Seq<char>>,
    head: Seq<u16>,
    back: Seq<Seq<char>>,
    tail: Seq<u16>,
)
    requires
        spell_groups(front, head),
        spell_groups(back, tail),
    ensures
        ({
            let t = join(front, ':') + seq![':', ':'] + join(back, ':');
            &&& head.len() + tail.len() <= 7 ==> ipv6_parse(t) == Some(
                head + Seq::new((8 - head.len() - tail.len()) as nat, |i: int| 0u16) + tail,
            )
            &&& head.len() + tail.len() > 7 ==> ipv6_parse(t) is None
        }),
{
    let h = join(front, ':');
    let e = join(back, ':');
    let t = h + seq![':', ':'] + e;
    let k = h.len() as int;
    lemma_part(front, head, false);
    lemma_part(back, tail, true);
    assert forall|j: int| 0 <= j < k implies !#[trigger] is_gap(t, j) by {
        if is_gap(t, j) {
            if j + 1 < k {
                assert(is_gap(h, j));
            } else {
                assert(h[k - 1] == ':');
            }
        }
    }
    assert(is_gap(t, k));
    assert(is_first_gap(t, k));
    lemma_first_gap_unique(t, k);
    assert(t.subrange(0, k) =~= h);
    assert(t.subrange(k + 2, t.len() as int) =~= e);
    assert(ipv6_parse(t) == gap_groups(t, k));
}

/// The last two of eight groups may be written as an address of version four.
pub proof fn law_mixed_form(pieces: Seq<Seq<char>>, groups: Seq<u16>, octets: Seq<u8>)
    requires
        spell_groups(pieces, groups),
        groups.len() == 6,
        octets.len() == 4,
    ensures
        ipv6_parse(join(pieces.push(ipv4_text(octets)), ':')) == Some(
            groups.push((octets[0] * 256 + octets[1]) as u16).push(
                (octets[2] * 256 + octets[3]) as u16,
            ),
        ),
{
    let v4 = ipv4_text(octets);
    let all = pieces.push(v4);
    let t = join(all, ':');
    lemma_spelled(pieces, groups);
    lemma_ipv4_text_chars(octets);
    law_ipv4_text_parses(octets);
    assert forall|i: int| 0 <= i < all.len() implies !(#[trigger] all[i]).contains(':')
        && all[i].len() >= 1 by {
        if i < pieces.len() {
            assert(all[i] == pieces[i]);
        }
    }
    lemma_join_has_no_gap(all);
    lemma_split_of_join(all, ':');
    assert forall|k: int| !(#[trigger] is_first_gap(t, k)) by {
        assert(!is_gap(t, k));
    }
    assert(group_of(v4) is None) by {
        let k = choose|k: int| 0 <= k < v4.len() && v4[k] == '.';
        assert(!is_digit(v4[k], 16));
    }
    assert forall|i: int| 0 <= i < 6 implies group_of(#[trigger] all[i]) == Some(groups[i]) by {
        assert(group_of(pieces[i]) == Some(groups[i]));
    }
    let init = Seq::new(6, |i: int| group_of(all[i])->0);
    assert forall|i: int| 0 <= i < 6 implies init[i] == groups[i] by {
        assert(group_of(all[i]) == Some(groups[i]));
    }
    assert(init =~= groups);
    assert(split(t, ':') == all);
    assert(piece_groups(all, true)->0 =~= groups.push((octets[0] * 256 + octets[1]) as u16).push(
        (octets[2] * 256 + octets[3]) as u16,
    ));
}

} // verus!
