//! Text primitives: whitespace trimming, ASCII case folding, substring search,
//! decimal and hexadecimal notation, and the order of strings.

use vstd::prelude::*;

verus! {

/// `String::push`: the character is appended, nothing else changes.
pub assume_specification[ String::push ](s: &mut String, c: char)
    ensures
        final(s)@ == old(s)@.push(c),
;

/// The characters of a string, in order.
pub fn chars_of(s: &str) -> (r: Vec<char>)
    ensures
        r@ == s@,
{
    let mut out: Vec<char> = Vec::new();
    for c in it: s.chars()
        invariant
            it.seq() == s@,
            out@ == s@.subrange(0, it.index() as int),
    {
        out.push(c);
    }
    out
}

/// The string made of the given characters.
pub fn string_of(chars: &[char]) -> (r: String)
    ensures
        r@ == chars@,
{
    let mut out = String::new();
    let mut i: usize = 0;
    while i < chars.len()
        invariant
            i <= chars.len(),
            out@ == chars@.subrange(0, i as int),
        decreases chars.len() - i,
    {
        out.push(chars[i]);
        i += 1;
    }
    assert(chars@.subrange(0, chars@.len() as int) == chars@);
    out
}

/// The characters with the Unicode property `White_Space`, as `char::is_whitespace` has them.
pub open spec fn is_space(c: char) -> bool {
    let n = c as u32;
    ||| 0x9 <= n <= 0xd
    ||| n == 0x20
    ||| n == 0x85
    ||| n == 0xa0
    ||| n == 0x1680
    ||| 0x2000 <= n <= 0x200a
    ||| n == 0x2028
    ||| n == 0x2029
    ||| n == 0x202f
    ||| n == 0x205f
    ||| n == 0x3000
}

/// Whether a character is white space.
pub fn is_whitespace(c: char) -> (r: bool)
    ensures
        r == is_space(c),
{
    let n: u32 = c as u32;
    (0x9 <= n && n <= 0xd) || n == 0x20 || n == 0x85 || n == 0xa0 || n == 0x1680 || (0x2000 <= n
        && n <= 0x200a) || n == 0x2028 || n == 0x2029 || n == 0x202f || n == 0x205f || n == 0x3000
}

/// A text without its leading white space.
pub open spec fn trim_start(s: Seq<char>) -> Seq<char>
    decreases s.len(),
{
    if s.len() > 0 && is_space(s[0]) {
        trim_start(s.subrange(1, s.len() as int))
    } else {
        s
    }
}

/// A text without its trailing white space.
pub open spec fn trim_end(s: Seq<char>) -> Seq<char>
    decreases s.len(),
{
    if s.len() > 0 && is_space(s[s.len() - 1]) {
        trim_end(s.subrange(0, s.len() - 1))
    } else {
        s
    }
}

/// A text without the white space at its two ends.
pub open spec fn trim(s: Seq<char>) -> Seq<char> {
    trim_end(trim_start(s))
}

/// The text without the white space at its two ends.
pub fn trimmed(s: &str) -> (r: String)
    ensures
        r@ == trim(s@),
{
    let chars = chars_of(s);
    let mut start: usize = 0;
    assert(chars@.subrange(0, chars@.len() as int) == s@);
    while start < chars.len() && is_whitespace(chars[start])
        invariant
            start <= chars.len(),
            trim_start(s@) == trim_start(chars@.subrange(start as int, chars@.len() as int)),
        decreases chars.len() - start,
    {
        assert(chars@.subrange(start as int, chars@.len() as int).subrange(
            1,
            chars@.len() - start,
        ) == chars@.subrange(start + 1, chars@.len() as int));
        start += 1;
    }
    let mut end: usize = chars.len();
    while start < end && is_whitespace(chars[end - 1])
        invariant
            start <= end <= chars.len(),
            trim(s@) == trim_end(chars@.subrange(start as int, end as int)),
        decreases end,
    {
        assert(chars@.subrange(start as int, end as int).subrange(0, end - start - 1)
            == chars@.subrange(start as int, end - 1));
        end -= 1;
    }
    string_of(vstd::slice::slice_subrange(chars.as_slice(), start, end))
}

/// Whether a character is a square bracket.
pub open spec fn is_bracket(c: char) -> bool {
    c == '[' || c == ']'
}

/// A text without the square brackets at its start.
pub open spec fn unbracket_start(s: Seq<char>) -> Seq<char>
    decreases s.len(),
{
    if s.len() > 0 && is_bracket(s[0]) {
        unbracket_start(s.subrange(1, s.len() as int))
    } else {
        s
    }
}

/// A text without the square brackets at its end.
pub open spec fn unbracket_end(s: Seq<char>) -> Seq<char>
    decreases s.len(),
{
    if s.len() > 0 && is_bracket(s[s.len() - 1]) {
        unbracket_end(s.subrange(0, s.len() - 1))
    } else {
        s
    }
}

/// A text without the square brackets at its two ends.
pub open spec fn unbracket(s: Seq<char>) -> Seq<char> {
    unbracket_end(unbracket_start(s))
}

/// The text without the square brackets at its two ends.
pub fn unbracketed(s: &str) -> (r: String)
    ensures
        r@ == unbracket(s@),
{
    let chars = chars_of(s);
    let mut start: usize = 0;
    assert(chars@.subrange(0, chars@.len() as int) == s@);
    while start < chars.len() && (chars[start] == '[' || chars[start] == ']')
        invariant
            start <= chars.len(),
            unbracket_start(s@) == unbracket_start(
                chars@.subrange(start as int, chars@.len() as int),
            ),
        decreases chars.len() - start,
    {
        assert(chars@.subrange(start as int, chars@.len() as int).subrange(
            1,
            chars@.len() - start,
        ) == chars@.subrange(start + 1, chars@.len() as int));
        start += 1;
    }
    let mut end: usize = chars.len();
    while start < end && (chars[end - 1] == '[' || chars[end - 1] == ']')
        invariant
            start <= end <= chars.len(),
            unbracket(s@) == unbracket_end(chars@.subrange(start as int, end as int)),
        decreases end,
    {
        assert(chars@.subrange(start as int, end as int).subrange(0, end - start - 1)
            == chars@.subrange(start as int, end - 1));
        end -= 1;
    }
    string_of(vstd::slice::slice_subrange(chars.as_slice(), start, end))
}

/// A text that trimming leaves nothing of is nothing but white space.
pub proof fn lemma_trimmed_to_nothing(s: Seq<char>)
    requires
        trim(s).len() == 0,
    ensures
        forall|i: int| 0 <= i < s.len() ==> is_space(#[trigger] s[i]),
{
    lemma_trim_start(s);
    lemma_trim_end(trim_start(s));
}

/// What trimming at the start removes is white space, and it stops at something else.
proof fn lemma_trim_start(s: Seq<char>)
    ensures
        trim_start(s).len() <= s.len(),
        trim_start(s).len() > 0 ==> !is_space(trim_start(s)[0]),
        trim_start(s).len() == 0 ==> forall|i: int| 0 <= i < s.len() ==> is_space(#[trigger] s[i]),
    decreases s.len(),
{
    if s.len() > 0 && is_space(s[0]) {
        let rest = s.subrange(1, s.len() as int);
        lemma_trim_start(rest);
        if trim_start(s).len() == 0 {
            assert forall|i: int| 0 <= i < s.len() implies is_space(#[trigger] s[i]) by {
                if i > 0 {
                    assert(s[i] == rest[i - 1]);
                }
            }
        }
    }
}

/// What trimming at the end leaves nothing of is white space.
proof fn lemma_trim_end(s: Seq<char>)
    ensures
        trim_end(s).len() == 0 ==> forall|i: int| 0 <= i < s.len() ==> is_space(#[trigger] s[i]),
    decreases s.len(),
{
    if s.len() > 0 && is_space(s[s.len() - 1]) {
        let rest = s.subrange(0, s.len() - 1);
        lemma_trim_end(rest);
        if trim_end(s).len() == 0 {
            assert forall|i: int| 0 <= i < s.len() implies is_space(#[trigger] s[i]) by {
                if i < s.len() - 1 {
                    assert(s[i] == rest[i]);
                }
            }
        }
    }
}

/// A character with `A` to `Z` mapped to `a` to `z`.
pub open spec fn lower_char(c: char) -> char {
    if 'A' <= c <= 'Z' {
        (c as u32 + 32) as char
    } else {
        c
    }
}

/// A text with `A` to `Z` mapped to `a` to `z`.
pub open spec fn lower(s: Seq<char>) -> Seq<char> {
    s.map_values(|c: char| lower_char(c))
}

/// The character with `A` to `Z` mapped to `a` to `z`.
pub fn lowered_char(c: char) -> (r: char)
    ensures
        r == lower_char(c),
{
    if 'A' <= c && c <= 'Z' {
        ((c as u8) + 32) as char
    } else {
        c
    }
}

/// The text with `A` to `Z` mapped to `a` to `z`.
pub fn lowered(s: &str) -> (r: String)
    ensures
        r@ == lower(s@),
{
    let chars = chars_of(s);
    let mut out = String::new();
    let mut i: usize = 0;
    while i < chars.len()
        invariant
            i <= chars.len(),
            chars@ == s@,
            out@ == lower(s@.subrange(0, i as int)),
        decreases chars.len() - i,
    {
        out.push(lowered_char(chars[i]));
        i += 1;
        assert(lower(s@.subrange(0, i as int)) == lower(s@.subrange(0, i - 1)).push(
            lower_char(s@[i - 1]),
        ));
    }
    assert(s@.subrange(0, s@.len() as int) == s@);
    out
}

/// A text with every `from` replaced by `to`.
pub open spec fn replace(s: Seq<char>, from: char, to: char) -> Seq<char> {
    s.map_values(|c: char| if c == from { to } else { c })
}

/// The text with every `from` replaced by `to`.
pub fn replaced(s: &str, from: char, to: char) -> (r: String)
    ensures
        r@ == replace(s@, from, to),
{
    let chars = chars_of(s);
    let mut out = String::new();
    let mut i: usize = 0;
    while i < chars.len()
        invariant
            i <= chars.len(),
            chars@ == s@,
            out@ == replace(s@.subrange(0, i as int), from, to),
        decreases chars.len() - i,
    {
        let c = if chars[i] == from {
            to
        } else {
            chars[i]
        };
        out.push(c);
        i += 1;
        assert(replace(s@.subrange(0, i as int), from, to) == replace(
            s@.subrange(0, i - 1),
            from,
            to,
        ).push(c));
    }
    assert(s@.subrange(0, s@.len() as int) == s@);
    out
}

/// Whether two texts are the same.
pub fn same_text(a: &str, b: &str) -> (r: bool)
    ensures
        r == (a@ == b@),
{
    let left = a.to_owned();
    let right = b.to_owned();
    left == right
}

/// Whether `part` stands somewhere in `s`.
pub open spec fn contains(s: Seq<char>, part: Seq<char>) -> bool {
    exists|i: int| 0 <= i <= s.len() - part.len() && #[trigger] s.subrange(i, i + part.len()) == part
}

/// Whether `part` stands in `chars` at position `at`.
fn part_at(chars: &Vec<char>, at: usize, part: &Vec<char>) -> (r: bool)
    requires
        at + part@.len() <= chars@.len(),
    ensures
        r == (chars@.subrange(at as int, at + part@.len()) == part@),
{
    let mut i: usize = 0;
    while i < part.len()
        invariant
            i <= part.len(),
            at + part.len() <= chars.len(),
            forall|k: int| 0 <= k < i ==> chars@[at + k] == part@[k],
        decreases part.len() - i,
    {
        if chars[at + i] != part[i] {
            assert(chars@.subrange(at as int, at + part@.len())[i as int] != part@[i as int]);
            return false;
        }
        i += 1;
    }
    assert(chars@.subrange(at as int, at + part@.len()) =~= part@);
    true
}

/// Whether `part` stands somewhere in `s`.
pub fn contains_text(s: &str, part: &str) -> (r: bool)
    ensures
        r == contains(s@, part@),
{
    let chars = chars_of(s);
    let needle = chars_of(part);
    if needle.len() > chars.len() {
        return false;
    }
    let last: usize = chars.len() - needle.len();
    let mut at: usize = 0;
    while at <= last
        invariant
            at <= last,
            last == chars@.len() - needle@.len(),
            chars@ == s@,
            needle@ == part@,
            forall|k: int|
                0 <= k < at ==> #[trigger] chars@.subrange(k, k + needle@.len()) != needle@,
        decreases last + 1 - at,
    {
        if part_at(&chars, at, &needle) {
            return true;
        }
        if at == last {
            return false;
        }
        at += 1;
    }
    false
}

/// The pieces of a text between the occurrences of a separator; there is always one.
pub open spec fn split(s: Seq<char>, sep: char) -> Seq<Seq<char>>
    decreases s.len(),
{
    if s.len() == 0 {
        seq![Seq::empty()]
    } else {
        let pieces = split(s.subrange(0, s.len() - 1), sep);
        let c = s[s.len() - 1];
        if c == sep {
            pieces.push(Seq::empty())
        } else {
            pieces.subrange(0, pieces.len() - 1).push(pieces[pieces.len() - 1].push(c))
        }
    }
}

/// The pieces put together again, with a separator between neighbours.
pub open spec fn join(pieces: Seq<Seq<char>>, sep: char) -> Seq<char>
    decreases pieces.len(),
{
    if pieces.len() == 0 {
        Seq::empty()
    } else if pieces.len() == 1 {
        pieces[0]
    } else {
        join(pieces.subrange(0, pieces.len() - 1), sep).push(sep) + pieces[pieces.len() - 1]
    }
}

/// The pieces of a text are free of the separator, and joining them gives the text back.
pub proof fn lemma_join_of_split(s: Seq<char>, sep: char)
    ensures
        split(s, sep).len() >= 1,
        forall|i: int| 0 <= i < split(s, sep).len() ==> !(#[trigger] split(s, sep)[i]).contains(sep),
        join(split(s, sep), sep) == s,
    decreases s.len(),
{
    if s.len() > 0 {
        let init = s.subrange(0, s.len() - 1);
        let c = s[s.len() - 1];
        lemma_join_of_split(init, sep);
        let before = split(init, sep);
        let after = split(s, sep);
        if c == sep {
            assert(after.subrange(0, after.len() - 1) == before);
            assert(join(after, sep) == init.push(sep) + Seq::<char>::empty());
            assert(init.push(sep) + Seq::<char>::empty() == s);
        } else {
            let last = before[before.len() - 1];
            assert forall|i: int| 0 <= i < after.len() implies !(#[trigger] after[i]).contains(
                sep,
            ) by {
                if i < after.len() - 1 {
                    assert(after[i] == before[i]);
                } else {
                    assert(after[i] == last.push(c));
                    if after[i].contains(sep) {
                        let k = choose|k: int| 0 <= k < after[i].len() && after[i][k] == sep;
                        assert(last[k] == sep);
                        assert(last.contains(sep));
                    }
                }
            }
            if before.len() == 1 {
                assert(s == init.push(c));
            } else {
                assert(after.subrange(0, after.len() - 1) == before.subrange(0, before.len() - 1));
                let front = join(before.subrange(0, before.len() - 1), sep).push(sep);
                assert(front + last.push(c) == (front + last).push(c));
                assert(s == init.push(c));
            }
        }
    }
}

/// A text followed by a separator and a separator-free piece splits off that piece.
pub proof fn lemma_split_append(s: Seq<char>, sep: char, piece: Seq<char>)
    requires
        !piece.contains(sep),
    ensures
        split(s.push(sep) + piece, sep) == split(s, sep).push(piece),
    decreases piece.len(),
{
    let whole = s.push(sep) + piece;
    if piece.len() == 0 {
        assert(whole.subrange(0, whole.len() - 1) == s);
        assert(piece == Seq::<char>::empty());
    } else {
        let init = piece.subrange(0, piece.len() - 1);
        let c = piece[piece.len() - 1];
        assert(piece.contains(c));
        assert forall|x: char| init.contains(x) implies piece.contains(x) by {
            let k = choose|k: int| 0 <= k < init.len() && init[k] == x;
            assert(piece[k] == x);
        }
        lemma_split_append(s, sep, init);
        assert(whole.subrange(0, whole.len() - 1) == s.push(sep) + init);
        let before = split(s, sep).push(init);
        assert(before.subrange(0, before.len() - 1) == split(s, sep));
        assert(init.push(c) == piece);
    }
}

/// A separator-free text is its only piece.
pub proof fn lemma_split_single(piece: Seq<char>, sep: char)
    requires
        !piece.contains(sep),
    ensures
        split(piece, sep) == seq![piece],
    decreases piece.len(),
{
    if piece.len() == 0 {
        assert(piece == Seq::<char>::empty());
    } else {
        let init = piece.subrange(0, piece.len() - 1);
        let c = piece[piece.len() - 1];
        assert(piece.contains(c));
        assert forall|x: char| init.contains(x) implies piece.contains(x) by {
            let k = choose|k: int| 0 <= k < init.len() && init[k] == x;
            assert(piece[k] == x);
        }
        lemma_split_single(init, sep);
        assert(init.push(c) == piece);
        assert(split(piece, sep) =~= seq![piece]);
    }
}

/// Splitting what was joined gives the pieces back.
pub proof fn lemma_split_of_join(pieces: Seq<Seq<char>>, sep: char)
    requires
        pieces.len() >= 1,
        forall|i: int| 0 <= i < pieces.len() ==> !(#[trigger] pieces[i]).contains(sep),
    ensures
        split(join(pieces, sep), sep) == pieces,
    decreases pieces.len(),
{
    if pieces.len() == 1 {
        lemma_split_single(pieces[0], sep);
        assert(seq![pieces[0]] == pieces);
    } else {
        let init = pieces.subrange(0, pieces.len() - 1);
        let last = pieces[pieces.len() - 1];
        assert forall|i: int| 0 <= i < init.len() implies !(#[trigger] init[i]).contains(sep) by {
            assert(init[i] == pieces[i]);
        }
        lemma_split_of_join(init, sep);
        lemma_split_append(join(init, sep), sep, last);
        assert(init.push(last) == pieces);
    }
}

/// The views of a list of character lists.
pub open spec fn views(pieces: Seq<Vec<char>>) -> Seq<Seq<char>> {
    pieces.map_values(|v: Vec<char>| v@)
}

/// The pieces of the characters from `from` to `to` between the separators.
pub fn split_chars(chars: &[char], from: usize, to: usize, sep: char) -> (r: Vec<Vec<char>>)
    requires
        from <= to <= chars@.len(),
    ensures
        views(r@) == split(chars@.subrange(from as int, to as int), sep),
{
    let mut pieces: Vec<Vec<char>> = Vec::new();
    let mut current: Vec<char> = Vec::new();
    let mut i: usize = from;
    assert(chars@.subrange(from as int, from as int) == Seq::<char>::empty());
    assert(views(pieces@).push(current@) == seq![Seq::<char>::empty()]);
    while i < to
        invariant
            from <= i <= to <= chars@.len(),
            views(pieces@).push(current@) == split(chars@.subrange(from as int, i as int), sep),
        decreases to - i,
    {
        let c = chars[i];
        let ghost longer = chars@.subrange(from as int, i + 1);
        let ghost before = views(pieces@).push(current@);
        let ghost piece = current@;
        assert(longer.subrange(0, longer.len() - 1) == chars@.subrange(from as int, i as int));
        assert(before.subrange(0, before.len() - 1) == views(pieces@));
        if c == sep {
            pieces.push(current);
            current = Vec::new();
            assert(views(pieces@) == before);
        } else {
            current.push(c);
        }
        i += 1;
        assert(views(pieces@).push(current@) == split(longer, sep));
    }
    let ghost done = views(pieces@).push(current@);
    pieces.push(current);
    assert(views(pieces@) == done);
    pieces
}

/// The texts of a list of strings.
pub open spec fn texts(s: Seq<String>) -> Seq<Seq<char>> {
    s.map_values(text_view())
}

/// The text of a string.
pub open spec fn text_view() -> spec_fn(String) -> Seq<char> {
    |t: String| t@
}

} // verus!
