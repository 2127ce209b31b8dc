//! What the operations on texts do to them.

use vstd::prelude::*;

use crate::address::{groups_of_octets, octet_of, octets_of_groups, IpModel, SocketModel};
use crate::ipv6::{
    group_pieces, groups_text, ipv6_text, is_mapped, longest_zero_run, zero_run,
};
use crate::numeral::{
    decimal, digit_char, digit_value, is_digit, lemma_numeral_value, numeral, numeral_value, parse_unsigned,
    without_plus,
};
use crate::order::text_less;
use crate::text::{
    contains, is_bracket, is_space, join, lower, replace, trim, trim_end, trim_start,
    unbracket, unbracket_end, unbracket_start,
};

verus! {

/// The white space in front of a text and behind it is trimmed, and nothing else.
pub proof fn law_trim(before: Seq<char>, core: Seq<char>, after: Seq<char>)
    requires
        forall|i: int| 0 <= i < before.len() ==> is_space(#[trigger] before[i]),
        forall|i: int| 0 <= i < after.len() ==> is_space(#[trigger] after[i]),
        core.len() > 0 ==> !is_space(core[0]) && !is_space(core[core.len() - 1]),
    ensures
        trim(before + core + after) == core,
{
    lemma_trim_start_of(before, core + after);
    assert(before + core + after =~= before + (core + after));
    if core.len() > 0 {
        assert((core + after)[0] == core[0]);
        assert(trim_start(core + after) == core + after);
        lemma_trim_end_of(core, after);
        assert(trim_end(core) == core);
    } else {
        let none = Seq::<char>::empty();
        assert(core + after =~= after + none);
        lemma_trim_start_of(after, none);
        assert(trim_start(none) == none);
        assert(trim_end(none) == none);
    }
}

proof fn lemma_trim_start_of(before: Seq<char>, rest: Seq<char>)
    requires
        forall|i: int| 0 <= i < before.len() ==> is_space(#[trigger] before[i]),
    ensures
        trim_start(before + rest) == trim_start(rest),
    decreases before.len(),
{
    if before.len() > 0 {
        let s = before + rest;
        let fewer = before.subrange(1, before.len() as int);
        assert(s[0] == before[0]);
        assert(s.subrange(1, s.len() as int) =~= fewer + rest);
        lemma_trim_start_of(fewer, rest);
    } else {
        assert(before + rest =~= rest);
    }
}

proof fn lemma_trim_end_of(core: Seq<char>, after: Seq<char>)
    requires
        forall|i: int| 0 <= i < after.len() ==> is_space(#[trigger] after[i]),
    ensures
        trim_end(core + after) == trim_end(core),
    decreases after.len(),
{
    if after.len() > 0 {
        let s = core + after;
        let fewer = after.subrange(0, after.len() - 1);
        assert(s[s.len() - 1] == after[after.len() - 1]);
        assert(s.subrange(0, s.len() - 1) =~= core + fewer);
        lemma_trim_end_of(core, fewer);
    } else {
        assert(core + after =~= core);
    }
}

/// The white space that is trimmed: blanks, tabs, the ends of lines and pages, and the wider ones
/// of Unicode.
pub proof fn law_white_space(c: char)
    ensures
        is_space(c) <==> seq![
            '\t',
            '\n',
            '\u{b}',
            '\u{c}',
            '\r',
            ' ',
            '\u{85}',
            '\u{a0}',
            '\u{1680}',
            '\u{2000}',
            '\u{2001}',
            '\u{2002}',
            '\u{2003}',
            '\u{2004}',
            '\u{2005}',
            '\u{2006}',
            '\u{2007}',
            '\u{2008}',
            '\u{2009}',
            '\u{200a}',
            '\u{2028}',
            '\u{2029}',
            '\u{202f}',
            '\u{205f}',
            '\u{3000}',
        ].contains(c),
{
    let all = seq![
        '\t',
        '\n',
        '\u{b}',
        '\u{c}',
        '\r',
        ' ',
        '\u{85}',
        '\u{a0}',
        '\u{1680}',
        '\u{2000}',
        '\u{2001}',
        '\u{2002}',
        '\u{2003}',
        '\u{2004}',
        '\u{2005}',
        '\u{2006}',
        '\u{2007}',
        '\u{2008}',
        '\u{2009}',
        '\u{200a}',
        '\u{2028}',
        '\u{2029}',
        '\u{202f}',
        '\u{205f}',
        '\u{3000}',
    ];
    let n = c as int;
    if is_space(c) {
        let k: int = if n <= 0xd {
            n - 9
        } else if n == 0x20 {
            5
        } else if n == 0x85 {
            6
        } else if n == 0xa0 {
            7
        } else if n == 0x1680 {
            8
        } else if n <= 0x200a {
            n - 0x2000 + 9
        } else if n == 0x2028 {
            20
        } else if n == 0x2029 {
            21
        } else if n == 0x202f {
            22
        } else if n == 0x205f {
            23
        } else {
            24
        };
        assert(all[k] == c);
    }
}

/// The square brackets in front of a text and behind it are taken off, and nothing else.
pub proof fn law_unbracket(before: Seq<char>, core: Seq<char>, after: Seq<char>)
    requires
        forall|i: int|
            0 <= i < before.len() ==> #[trigger] before[i] == '[' || before[i] == ']',
        forall|i: int| 0 <= i < after.len() ==> #[trigger] after[i] == '[' || after[i] == ']',
        core.len() > 0,
        core[0] != '[' && core[0] != ']',
        core[core.len() - 1] != '[' && core[core.len() - 1] != ']',
    ensures
        unbracket(before + core + after) == core,
{
    lemma_unbracket_start_of(before, core + after);
    assert(before + core + after =~= before + (core + after));
    assert((core + after)[0] == core[0]);
    assert(unbracket_start(core + after) == core + after);
    lemma_unbracket_end_of(core, after);
    assert(unbracket_end(core) == core);
}

proof fn lemma_unbracket_start_of(before: Seq<char>, rest: Seq<char>)
    requires
        forall|i: int| 0 <= i < before.len() ==> is_bracket(#[trigger] before[i]),
    ensures
        unbracket_start(before + rest) == unbracket_start(rest),
    decreases before.len(),
{
    if before.len() > 0 {
        let s = before + rest;
        let fewer = before.subrange(1, before.len() as int);
        assert(s[0] == before[0]);
        assert(s.subrange(1, s.len() as int) =~= fewer + rest);
        lemma_unbracket_start_of(fewer, rest);
    } else {
        assert(before + rest =~= rest);
    }
}

proof fn lemma_unbracket_end_of(core: Seq<char>, after: Seq<char>)
    requires
        forall|i: int| 0 <= i < after.len() ==> is_bracket(#[trigger] after[i]),
    ensures
        unbracket_end(core + after) == unbracket_end(core),
    decreases after.len(),
{
    if after.len() > 0 {
        let s = core + after;
        let fewer = after.subrange(0, after.len() - 1);
        assert(s[s.len() - 1] == after[after.len() - 1]);
        assert(s.subrange(0, s.len() - 1) =~= core + fewer);
        lemma_unbracket_end_of(core, fewer);
    } else {
        assert(core + after =~= core);
    }
}

/// Each capital letter becomes the small letter at its place in the alphabet; every other character
/// stays.
pub proof fn law_lower(s: Seq<char>, i: int, k: int)
    requires
        0 <= i < s.len(),
        0 <= k < 26,
    ensures
        lower(s).len() == s.len(),
        s[i] == "ABCDEFGHIJKLMNOPQRSTUVWXYZ"@[k] ==> lower(s)[i]
            == "abcdefghijklmnopqrstuvwxyz"@[k],
        !("ABCDEFGHIJKLMNOPQRSTUVWXYZ"@.contains(s[i])) ==> lower(s)[i] == s[i],
        lower(lower(s)) == lower(s),
{
    reveal_strlit("ABCDEFGHIJKLMNOPQRSTUVWXYZ");
    reveal_strlit("abcdefghijklmnopqrstuvwxyz");
    if 'A' <= s[i] <= 'Z' {
        let at = s[i] as int - 'A' as int;
        assert("ABCDEFGHIJKLMNOPQRSTUVWXYZ"@[at] == s[i]);
    }
    assert(lower(lower(s)) =~= lower(s));
}

/// Where the one character stands, the other comes in its place, and all others stay.
pub proof fn law_replace(s: Seq<char>, from: char, to: char, i: int)
    requires
        0 <= i < s.len(),
    ensures
        replace(s, from, to).len() == s.len(),
        s[i] == from ==> replace(s, from, to)[i] == to,
        s[i] != from ==> replace(s, from, to)[i] == s[i],
{
}

/// A part stands in a text exactly where the text is something, the part, and something.
pub proof fn law_contains(s: Seq<char>, before: Seq<char>, part: Seq<char>, after: Seq<char>)
    ensures
        s == before + part + after ==> contains(s, part),
        contains(s, part) ==> exists|i: int|
            0 <= i && i + part.len() <= s.len() && s == #[trigger] s.subrange(0, i) + part
                + s.subrange(i + part.len(), s.len() as int),
{
    if s == before + part + after {
        assert(s.subrange(before.len() as int, before.len() as int + part.len()) =~= part);
    }
    if contains(s, part) {
        let i = choose|i: int|
            0 <= i <= s.len() - part.len() && #[trigger] s.subrange(i, i + part.len()) == part;
        assert(s =~= s.subrange(0, i) + s.subrange(i, i + part.len()) + s.subrange(
            i + part.len(),
            s.len() as int,
        ));
    }
}

/// Joined pieces stand one behind the other, with the separator between them.
pub proof fn law_join(pieces: Seq<Seq<char>>, piece: Seq<char>, sep: char)
    requires
        pieces.len() > 0,
    ensures
        join(seq![piece], sep) == piece,
        join(pieces.push(piece), sep) == join(pieces, sep) + seq![sep] + piece,
{
    assert(pieces.push(piece).subrange(0, pieces.len() as int) =~= pieces);
    assert(join(pieces.push(piece), sep) =~= join(pieces, sep) + seq![sep] + piece);
}

/// Texts are ordered by the first character in which they differ; a text comes before those that
/// it begins.
pub proof fn law_text_order(
    common: Seq<char>,
    x: char,
    y: char,
    a: Seq<char>,
    b: Seq<char>,
)
    ensures
        x < y ==> text_less(common + seq![x] + a, common + seq![y] + b),
        x < y ==> !text_less(common + seq![y] + b, common + seq![x] + a),
        text_less(common, common + seq![x] + a),
        !text_less(common + seq![x] + a, common),
        !text_less(common, common),
    decreases common.len(),
{
    let p = common + seq![x] + a;
    let q = common + seq![y] + b;
    if common.len() > 0 {
        let rest = common.subrange(1, common.len() as int);
        assert(p.subrange(1, p.len() as int) =~= rest + seq![x] + a);
        assert(q.subrange(1, q.len() as int) =~= rest + seq![y] + b);
        assert(p[0] == common[0] && q[0] == common[0]);
        law_text_order(rest, x, y, a, b);
    } else {
        assert(p[0] == x && q[0] == y);
    }
}

/// The digits of either case have their values, and nothing else is a digit.
pub proof fn law_digits(c: char, n: int)
    requires
        0 <= n < 16,
    ensures
        digit_value("0123456789abcdef"@[n]) == Some(n as nat),
        digit_value("0123456789ABCDEF"@[n]) == Some(n as nat),
        digit_value(c) matches Some(v) ==> v < 16 && (c == "0123456789abcdef"@[v as int] || c
            == "0123456789ABCDEF"@[v as int]),
{
    reveal_strlit("0123456789abcdef");
    reveal_strlit("0123456789ABCDEF");
}

/// The value of a notation grows by the base with each digit.
pub proof fn law_numeral_value(s: Seq<char>, c: char, base: nat)
    requires
        digit_value(c) is Some,
    ensures
        numeral_value(s.push(c), base) == numeral_value(s, base) * base + digit_value(c)->0,
        numeral_value(Seq::empty(), base) == 0,
{
    assert(s.push(c).subrange(0, s.len() as int) =~= s);
}

/// A number is written with its digits, the most significant first and no zeros in front.
pub proof fn law_decimal(n: nat, d: nat)
    requires
        d < 10,
    ensures
        decimal(d) == seq!["0123456789"@[d as int]],
        n > 0 ==> decimal(n * 10 + d) == decimal(n).push("0123456789"@[d as int]),
{
    reveal_strlit("0123456789");
    if n > 0 {
        assert((n * 10 + d) / 10 == n);
        assert((n * 10 + d) % 10 == d);
    }
}

/// A number reads back from its notation, with or without a plus sign, where it is in range.
pub proof fn law_number_reads_back(n: nat, base: nat, max: nat)
    requires
        2 <= base <= 16,
    ensures
        n <= max ==> parse_unsigned(numeral(n, base), base, max) == Some(n),
        n <= max ==> parse_unsigned(seq!['+'] + numeral(n, base), base, max) == Some(n),
        n > max ==> parse_unsigned(numeral(n, base), base, max) is None,
        n > max ==> parse_unsigned(seq!['+'] + numeral(n, base), base, max) is None,
{
    lemma_numeral_value(n, base);
    let s = numeral(n, base);
    assert(is_digit(s[0], base));
    assert(without_plus(s) == s);
    assert((seq!['+'] + s).subrange(1, s.len() as int + 1) =~= s);
}

/// Nothing is a number that is empty, or holds a character that is no digit of the base and no
/// plus sign at its start.
pub proof fn law_other_texts_are_no_numbers(s: Seq<char>, base: nat, max: nat, i: int)
    requires
        s.len() == 0 || s == seq!['+'] || (0 <= i < s.len() && !is_digit(s[i], base) && (s[i] != '+'
            || i > 0)),
    ensures
        parse_unsigned(s, base, max) is None,
{
    let digits = without_plus(s);
    if s.len() > 0 && s != seq!['+'] {
        let at = if s[0] == '+' {
            i - 1
        } else {
            i
        };
        assert(digits[at] == s[i]);
    }
}

/// An address of version four is written as its four octets with dots between them.
pub proof fn law_ipv4_text(a: u8, b: u8, c: u8, d: u8)
    ensures
        IpModel::V4(seq![a, b, c, d]).text() == decimal(a as nat) + seq!['.'] + decimal(b as nat)
            + seq!['.'] + decimal(c as nat) + seq!['.'] + decimal(d as nat),
{
    let pieces = crate::address::ipv4_pieces(seq![a, b, c, d]);
    let p1 = pieces.subrange(0, 1);
    let p2 = pieces.subrange(0, 2);
    let p3 = pieces.subrange(0, 3);
    assert(p1 =~= seq![decimal(a as nat)]);
    assert(p2 =~= p1.push(decimal(b as nat)));
    assert(p3 =~= p2.push(decimal(c as nat)));
    assert(pieces =~= p3.push(decimal(d as nat)));
    law_join(p1, decimal(a as nat), '.');
    law_join(p1, decimal(b as nat), '.');
    law_join(p2, decimal(c as nat), '.');
    law_join(p3, decimal(d as nat), '.');
}

/// A socket address is written as its address, a colon and its port; an address of version six
/// stands in square brackets.
pub proof fn law_socket_text(s: SocketModel)
    requires
        s.scope_id == 0,
    ensures
        s.ip is V4 ==> s.text() == s.ip.text() + seq![':'] + decimal(s.port as nat),
        s.ip is V6 ==> s.text() == seq!['['] + s.ip.text() + seq![']', ':'] + decimal(
            s.port as nat,
        ),
{
    match s.ip {
        IpModel::V4(_) => {
            assert(s.text() =~= s.ip.text() + seq![':'] + decimal(s.port as nat));
        },
        IpModel::V6(_) => {
            assert(s.text() =~= seq!['['] + s.ip.text() + seq![']', ':'] + decimal(s.port as nat));
        },
    }
}

/// An address of version six has eight groups of two octets each, the more significant first.
pub proof fn law_groups(octets: Seq<u8>, i: int)
    requires
        octets.len() == 16,
        0 <= i < 8,
    ensures
        groups_of_octets(octets).len() == 8,
        groups_of_octets(octets)[i] == octets[2 * i] * 256 + octets[2 * i + 1],
        octets_of_groups(groups_of_octets(octets)) == octets,
{
    let g = groups_of_octets(octets);
    assert forall|k: int| 0 <= k < 16 implies octets_of_groups(g)[k] == octets[k] by {
        let j = k / 2;
        assert(g[j] == octets[2 * j] * 256 + octets[2 * j + 1]);
    }
    assert(octets_of_groups(g) =~= octets);
}

/// An address of version six without two zero groups in a row is written as its groups in
/// hexadecimal notation, without zeros in front, with colons between them.
pub proof fn law_ipv6_text_without_zeros(octets: Seq<u8>)
    requires
        octets.len() == 16,
        forall|i: int|
            #![trigger groups_of_octets(octets)[i]]
            0 <= i < 7 ==> groups_of_octets(octets)[i] != 0 || groups_of_octets(octets)[i + 1] != 0,
    ensures
        IpModel::V6(octets).text() == join(
            Seq::new(8, |i: int| numeral((octets[2 * i] * 256 + octets[2 * i + 1]) as nat, 16)),
            ':',
        ),
{
    let g = groups_of_octets(octets);
    assert(g.len() == 8);
    assert forall|s: int, l: int| l >= 2 implies !(#[trigger] longest_zero_run(g, s, l)) by {
        if longest_zero_run(g, s, l) {
            assert(g[s] == 0 && g[s + 1] == 0);
        }
    }
    assert(!is_mapped(g)) by {
        if is_mapped(g) {
            assert(g[0] == 0 && g[1] == 0);
        }
    }
    assert(group_pieces(g) =~= Seq::new(
        8,
        |i: int| numeral((octets[2 * i] * 256 + octets[2 * i + 1]) as nat, 16),
    ));
}

/// In an address of version six, the first of the longest runs of two or more zero groups is
/// written as two colons; an address that stands for one of version four is written with that.
pub proof fn law_ipv6_text_with_zeros(groups: Seq<u16>, start: int, len: int)
    requires
        groups.len() == 8,
        2 <= len,
        0 <= start && start + len <= 8,
        forall|i: int| start <= i < start + len ==> #[trigger] groups[i] == 0,
        forall|s: int, l: int|
            #[trigger] zero_run(groups, s, l) ==> l < len || (l == len && s >= start),
        !is_mapped(groups),
    ensures
        ipv6_text(groups) == groups_text(groups.subrange(0, start)) + seq![':', ':'] + groups_text(
            groups.subrange(start + len, 8),
        ),
{
    assert(zero_run(groups, start, len));
    assert(longest_zero_run(groups, start, len));
    let (s, l) = choose|s: int, l: int| l >= 2 && #[trigger] longest_zero_run(groups, s, l);
    assert(zero_run(groups, s, l));
    assert(l == len && s == start);
}

/// An octet is written with one to three digits, without zeros in front, and is at most 255.
pub proof fn law_octets(n: nat, s: Seq<char>)
    ensures
        n <= 255 ==> octet_of(decimal(n)) == Some(n as u8),
        n > 255 ==> octet_of(decimal(n)) is None,
        s.len() > 1 && s[0] == '0' ==> octet_of(s) is None,
        s.len() == 0 || s.len() > 3 ==> octet_of(s) is None,
{
    lemma_numeral_value(n, 10);
    if n <= 255 {
        assert(vstd::arithmetic::power::pow(10, 3) == 1000) by {
            reveal_with_fuel(vstd::arithmetic::power::pow, 4);
        }
        crate::numeral::lemma_numeral_len(n, 10, 3);
        if decimal(n).len() > 1 && decimal(n)[0] == '0' {
            assert(n == 0);
        }
    }
}

/// The digit of a value below sixteen is the hexadecimal one in lower case.
pub proof fn law_digit_characters(n: int)
    requires
        0 <= n < 16,
    ensures
        digit_char(n) == "0123456789abcdef"@[n],
{
    reveal_strlit("0123456789abcdef");
}

} // verus!
