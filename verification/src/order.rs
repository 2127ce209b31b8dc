//! The order of texts by code points, and stable sorting by texts.

use vstd::prelude::*;

use crate::text::chars_of;

verus! {

/// Whether text `a` comes before text `b`: at the first difference the smaller code point,
/// or the end of the text, comes first.
pub open spec fn text_less(a: Seq<char>, b: Seq<char>) -> bool
    decreases b.len(),
{
    if b.len() == 0 {
        false
    } else if a.len() == 0 {
        true
    } else if a[0] != b[0] {
        a[0] < b[0]
    } else {
        text_less(a.subrange(1, a.len() as int), b.subrange(1, b.len() as int))
    }
}

/// Whether the list of texts `a` comes before `b`: the first texts that differ decide.
pub open spec fn rank_less(a: Seq<Seq<char>>, b: Seq<Seq<char>>) -> bool
    decreases b.len(),
{
    if b.len() == 0 {
        false
    } else if a.len() == 0 {
        true
    } else if a[0] != b[0] {
        text_less(a[0], b[0])
    } else {
        rank_less(a.subrange(1, a.len() as int), b.subrange(1, b.len() as int))
    }
}

/// Of two different texts one comes before the other, and never both.
pub proof fn lemma_text_total(a: Seq<char>, b: Seq<char>)
    ensures
        !(text_less(a, b) && text_less(b, a)),
        a == b || text_less(a, b) || text_less(b, a),
        a == b ==> !text_less(a, b),
    decreases b.len(),
{
    if a.len() > 0 && b.len() > 0 {
        let x = a.subrange(1, a.len() as int);
        let y = b.subrange(1, b.len() as int);
        lemma_text_total(x, y);
        if a[0] == b[0] && x == y {
            assert(a =~= seq![a[0]] + x);
            assert(b =~= seq![b[0]] + y);
        }
    } else if a.len() == 0 && b.len() == 0 {
        assert(a =~= b);
    }
}

/// The order of texts is transitive.
pub proof fn lemma_text_transitive(a: Seq<char>, b: Seq<char>, c: Seq<char>)
    requires
        text_less(a, b),
        text_less(b, c),
    ensures
        text_less(a, c),
    decreases c.len(),
{
    if a.len() > 0 && b.len() > 0 && c.len() > 0 && a[0] == b[0] && b[0] == c[0] {
        lemma_text_transitive(
            a.subrange(1, a.len() as int),
            b.subrange(1, b.len() as int),
            c.subrange(1, c.len() as int),
        );
    }
}

/// Of two different ranks one comes before the other, and never both.
pub proof fn lemma_rank_total(a: Seq<Seq<char>>, b: Seq<Seq<char>>)
    ensures
        !(rank_less(a, b) && rank_less(b, a)),
        a == b || rank_less(a, b) || rank_less(b, a),
        a == b ==> !rank_less(a, b),
    decreases b.len(),
{
    if a.len() > 0 && b.len() > 0 {
        let x = a.subrange(1, a.len() as int);
        let y = b.subrange(1, b.len() as int);
        lemma_rank_total(x, y);
        lemma_text_total(a[0], b[0]);
        if a[0] == b[0] && x == y {
            assert(a =~= seq![a[0]] + x);
            assert(b =~= seq![b[0]] + y);
        }
    } else if a.len() == 0 && b.len() == 0 {
        assert(a =~= b);
    }
}

/// The order of ranks is transitive.
pub proof fn lemma_rank_transitive(a: Seq<Seq<char>>, b: Seq<Seq<char>>, c: Seq<Seq<char>>)
    requires
        rank_less(a, b),
        rank_less(b, c),
    ensures
        rank_less(a, c),
    decreases c.len(),
{
    if a.len() > 0 && b.len() > 0 && c.len() > 0 {
        if a[0] == b[0] && b[0] == c[0] {
            lemma_rank_transitive(
                a.subrange(1, a.len() as int),
                b.subrange(1, b.len() as int),
                c.subrange(1, c.len() as int),
            );
        } else {
            lemma_text_total(a[0], b[0]);
            lemma_text_total(b[0], c[0]);
            lemma_text_total(a[0], c[0]);
            if a[0] != b[0] && b[0] != c[0] {
                lemma_text_transitive(a[0], b[0], c[0]);
            }
        }
    }
}

/// Whether text `a` comes before text `b`.
pub fn text_before(a: &str, b: &str) -> (r: bool)
    ensures
        r == text_less(a@, b@),
{
    let left = chars_of(a);
    let right = chars_of(b);
    let mut i: usize = 0;
    assert(a@.subrange(0, a@.len() as int) == a@);
    assert(b@.subrange(0, b@.len() as int) == b@);
    while i < left.len() && i < right.len() && left[i] == right[i]
        invariant
            left@ == a@,
            right@ == b@,
            i <= left@.len(),
            i <= right@.len(),
            text_less(a@, b@) == text_less(
                left@.subrange(i as int, left@.len() as int),
                right@.subrange(i as int, right@.len() as int),
            ),
        decreases left.len() - i,
    {
        proof {
            let x = left@.subrange(i as int, left@.len() as int);
            let y = right@.subrange(i as int, right@.len() as int);
            assert(x.subrange(1, x.len() as int) == left@.subrange(i + 1, left@.len() as int));
            assert(y.subrange(1, y.len() as int) == right@.subrange(i + 1, right@.len() as int));
        }
        i += 1;
    }
    if i >= right.len() {
        false
    } else if i >= left.len() {
        true
    } else {
        left[i] < right[i]
    }
}

/// A value that is ordered by a list of texts.
pub trait Ranked: Sized {
    /// The texts by which the value is ordered, the most significant first.
    spec fn rank(&self) -> Seq<Seq<char>>;

    /// Whether this value comes before the other.
    fn before(&self, other: &Self) -> (r: bool)
        ensures
            r == rank_less(self.rank(), other.rank()),
    ;
}

impl Ranked for String {
    open spec fn rank(&self) -> Seq<Seq<char>> {
        seq![self@]
    }

    fn before(&self, other: &String) -> (r: bool) {
        proof {
            lemma_single_rank(self@, other@);
        }
        text_before(self.as_str(), other.as_str())
    }
}

/// A rank of one text is ordered as the text.
pub proof fn lemma_single_rank(a: Seq<char>, b: Seq<char>)
    ensures
        rank_less(seq![a], seq![b]) == text_less(a, b),
{
    lemma_text_total(a, b);
    let x = seq![a];
    let y = seq![b];
    assert(x.subrange(1, 1) == Seq::<Seq<char>>::empty());
    assert(y.subrange(1, 1) == Seq::<Seq<char>>::empty());
    assert(!rank_less(Seq::<Seq<char>>::empty(), Seq::<Seq<char>>::empty()));
}

/// A rank of two texts is ordered by the first, and by the second where the first are the same.
pub proof fn lemma_double_rank(a: Seq<char>, b: Seq<char>, c: Seq<char>, d: Seq<char>)
    ensures
        rank_less(seq![a, b], seq![c, d]) == (text_less(a, c) || (a == c && text_less(b, d))),
{
    lemma_text_total(a, c);
    assert(seq![a, b].subrange(1, 2) == seq![b]);
    assert(seq![c, d].subrange(1, 2) == seq![d]);
    lemma_single_rank(b, d);
}

/// A sorted sequence with one more value, placed behind all that do not come after it.
pub open spec fn insert_by<T>(s: Seq<T>, x: T, rank: spec_fn(T) -> Seq<Seq<char>>) -> Seq<T>
    decreases s.len(),
{
    if s.len() > 0 && rank_less(rank(x), rank(s[s.len() - 1])) {
        insert_by(s.subrange(0, s.len() - 1), x, rank).push(s[s.len() - 1])
    } else {
        s.push(x)
    }
}

/// The values sorted by rank; values of the same rank stay in their order.
pub open spec fn sort_by<T>(s: Seq<T>, rank: spec_fn(T) -> Seq<Seq<char>>) -> Seq<T>
    decreases s.len(),
{
    if s.len() == 0 {
        Seq::empty()
    } else {
        insert_by(sort_by(s.subrange(0, s.len() - 1), rank), s[s.len() - 1], rank)
    }
}

/// Whether no value comes before an earlier one.
pub open spec fn is_sorted_by<T>(s: Seq<T>, rank: spec_fn(T) -> Seq<Seq<char>>) -> bool {
    forall|i: int, j: int|
        0 <= i < j < s.len() ==> !rank_less(rank(#[trigger] s[j]), rank(#[trigger] s[i]))
}

/// Inserting adds the value and keeps the sequence sorted.
pub proof fn lemma_insert_by<T>(s: Seq<T>, x: T, rank: spec_fn(T) -> Seq<Seq<char>>)
    requires
        is_sorted_by(s, rank),
    ensures
        is_sorted_by(insert_by(s, x, rank), rank),
        insert_by(s, x, rank).len() == s.len() + 1,
        insert_by(s, x, rank).to_multiset() == s.to_multiset().insert(x),
        forall|y: T| #[trigger] insert_by(s, x, rank).contains(y) <==> s.contains(y) || y == x,
    decreases s.len(),
{
    broadcast use vstd::seq_lib::group_to_multiset_ensures;
    let t = insert_by(s, x, rank);
    if s.len() > 0 && rank_less(rank(x), rank(s[s.len() - 1])) {
        let init = s.subrange(0, s.len() - 1);
        let last = s[s.len() - 1];
        assert(is_sorted_by(init, rank)) by {
            assert forall|i: int, j: int| 0 <= i < j < init.len() implies !rank_less(
                rank(#[trigger] init[j]),
                rank(#[trigger] init[i]),
            ) by {
                assert(init[i] == s[i] && init[j] == s[j]);
            }
        }
        lemma_insert_by(init, x, rank);
        let inner = insert_by(init, x, rank);
        assert(s == init.push(last));
        assert(t.to_multiset() =~= s.to_multiset().insert(x));
        assert forall|i: int, j: int| 0 <= i < j < t.len() implies !rank_less(
            rank(#[trigger] t[j]),
            rank(#[trigger] t[i]),
        ) by {
            if j < inner.len() {
                assert(t[i] == inner[i] && t[j] == inner[j]);
            } else {
                assert(inner.contains(inner[i]));
                assert(t[i] == inner[i]);
                if inner[i] == x {
                    lemma_rank_total(rank(x), rank(last));
                } else {
                    assert(init.contains(inner[i]));
                    let k = choose|k: int| 0 <= k < init.len() && init[k] == inner[i];
                    assert(s[k] == inner[i]);
                }
            }
        }
        assert forall|y: T| #[trigger] t.contains(y) <==> s.contains(y) || y == x by {
            if t.contains(y) {
                let k = choose|k: int| 0 <= k < t.len() && t[k] == y;
                if k < inner.len() {
                    assert(inner.contains(y));
                    if init.contains(y) {
                        let m = choose|m: int| 0 <= m < init.len() && init[m] == y;
                        assert(s[m] == y);
                    }
                } else {
                    assert(s[s.len() - 1] == y);
                }
            }
            if s.contains(y) {
                let k = choose|k: int| 0 <= k < s.len() && s[k] == y;
                if k < init.len() {
                    assert(init[k] == y);
                    assert(inner.contains(y));
                    let m = choose|m: int| 0 <= m < inner.len() && inner[m] == y;
                    assert(t[m] == y);
                } else {
                    assert(t[t.len() - 1] == y);
                }
            }
            if y == x {
                assert(inner.contains(x));
                let m = choose|m: int| 0 <= m < inner.len() && inner[m] == x;
                assert(t[m] == x);
            }
        }
    } else {
        assert forall|i: int, j: int| 0 <= i < j < t.len() implies !rank_less(
            rank(#[trigger] t[j]),
            rank(#[trigger] t[i]),
        ) by {
            if j < s.len() {
                assert(t[i] == s[i] && t[j] == s[j]);
            } else {
                let last = s[s.len() - 1];
                if rank_less(rank(x), rank(s[i])) {
                    if i < s.len() - 1 {
                        lemma_rank_total(rank(s[i]), rank(last));
                        assert(!rank_less(rank(last), rank(s[i])));
                        if rank(s[i]) != rank(last) {
                            lemma_rank_transitive(rank(x), rank(s[i]), rank(last));
                        }
                    }
                }
            }
        }
        assert forall|y: T| #[trigger] t.contains(y) <==> s.contains(y) || y == x by {
            if t.contains(y) {
                let k = choose|k: int| 0 <= k < t.len() && t[k] == y;
                if k < s.len() {
                    assert(s[k] == y);
                }
            }
            if s.contains(y) {
                let k = choose|k: int| 0 <= k < s.len() && s[k] == y;
                assert(t[k] == y);
            }
            if y == x {
                assert(t[s.len() as int] == x);
            }
        }
    }
}

/// Sorting keeps every value, as often as it occurs, and leaves them in order.
pub proof fn law_sorting_is_a_permutation<T>(s: Seq<T>, rank: spec_fn(T) -> Seq<Seq<char>>)
    ensures
        is_sorted_by(sort_by(s, rank), rank),
        sort_by(s, rank).len() == s.len(),
        sort_by(s, rank).to_multiset() == s.to_multiset(),
        forall|y: T| #[trigger] sort_by(s, rank).contains(y) <==> s.contains(y),
    decreases s.len(),
{
    broadcast use vstd::seq_lib::group_to_multiset_ensures;
    if s.len() > 0 {
        let init = s.subrange(0, s.len() - 1);
        let last = s[s.len() - 1];
        law_sorting_is_a_permutation(init, rank);
        lemma_insert_by(sort_by(init, rank), last, rank);
        assert(s == init.push(last));
        assert forall|y: T| #[trigger] sort_by(s, rank).contains(y) <==> s.contains(y) by {
            if s.contains(y) {
                let k = choose|k: int| 0 <= k < s.len() && s[k] == y;
                if k < init.len() {
                    assert(init[k] == y);
                }
            }
            if init.contains(y) {
                let k = choose|k: int| 0 <= k < init.len() && init[k] == y;
                assert(s[k] == y);
            }
            assert(s[s.len() - 1] == last);
        }
    } else {
        assert(s =~= Seq::<T>::empty());
        assert(sort_by(s, rank).to_multiset() =~= s.to_multiset());
    }
}

/// The ranks of ranked values.
pub open spec fn rank_of<T: Ranked>() -> spec_fn(T) -> Seq<Seq<char>> {
    |t: T| t.rank()
}

/// The values sorted by their ranks.
pub open spec fn ranked<T: Ranked>(s: Seq<T>) -> Seq<T> {
    sort_by(s, rank_of())
}

/// Sorting commutes with a mapping that keeps ranks.
pub proof fn lemma_sort_of_mapped<T, U>(
    s: Seq<T>,
    rank: spec_fn(T) -> Seq<Seq<char>>,
    f: spec_fn(T) -> U,
    image_rank: spec_fn(U) -> Seq<Seq<char>>,
)
    requires
        forall|t: T| image_rank(#[trigger] f(t)) == rank(t),
    ensures
        sort_by(s, rank).map_values(f) == sort_by(s.map_values(f), image_rank),
    decreases s.len(),
{
    if s.len() > 0 {
        let init = s.subrange(0, s.len() - 1);
        let last = s[s.len() - 1];
        lemma_sort_of_mapped(init, rank, f, image_rank);
        lemma_insert_of_mapped(sort_by(init, rank), last, rank, f, image_rank);
        let m = s.map_values(f);
        assert(m.subrange(0, m.len() - 1) =~= init.map_values(f));
    } else {
        assert(sort_by(s, rank).map_values(f) =~= sort_by(s.map_values(f), image_rank));
    }
}

/// Inserting commutes with a mapping that keeps ranks.
proof fn lemma_insert_of_mapped<T, U>(
    s: Seq<T>,
    x: T,
    rank: spec_fn(T) -> Seq<Seq<char>>,
    f: spec_fn(T) -> U,
    image_rank: spec_fn(U) -> Seq<Seq<char>>,
)
    requires
        forall|t: T| image_rank(#[trigger] f(t)) == rank(t),
    ensures
        insert_by(s, x, rank).map_values(f) == insert_by(s.map_values(f), f(x), image_rank),
    decreases s.len(),
{
    let m = s.map_values(f);
    if s.len() > 0 {
        let init = s.subrange(0, s.len() - 1);
        lemma_insert_of_mapped(init, x, rank, f, image_rank);
        assert(m.subrange(0, m.len() - 1) =~= init.map_values(f));
        assert(m[m.len() - 1] == f(s[s.len() - 1]));
    }
    assert(insert_by(s, x, rank).map_values(f) =~= insert_by(m, f(x), image_rank));
}

/// Places one value into a sorted list.
fn place<T: Ranked>(out: &mut Vec<T>, x: T)
    ensures
        final(out)@ == insert_by(old(out)@, x, rank_of()),
{
    let ghost s = out@;
    let mut p: usize = out.len();
    assert(s.subrange(0, s.len() as int) == s);
    assert(insert_by(s, x, rank_of()) == insert_by(s.subrange(0, p as int), x, rank_of()) + s.subrange(
        p as int,
        s.len() as int,
    ));
    while p > 0 && x.before(&out[p - 1])
        invariant
            p <= out@.len(),
            out@ == s,
            insert_by(s, x, rank_of()) == insert_by(s.subrange(0, p as int), x, rank_of()) + s.subrange(
                p as int,
                s.len() as int,
            ),
        decreases p,
    {
        proof {
            let head = s.subrange(0, p as int);
            assert(head.subrange(0, p - 1) == s.subrange(0, p - 1));
            let inner = insert_by(s.subrange(0, p - 1), x, rank_of());
            assert(insert_by(head, x, rank_of()) == inner.push(s[p - 1]));
            assert(inner.push(s[p - 1]) + s.subrange(p as int, s.len() as int) =~= inner
                + s.subrange(p - 1, s.len() as int));
        }
        p -= 1;
    }
    proof {
        let head = s.subrange(0, p as int);
        assert(insert_by(head, x, rank_of()) == head.push(x));
        assert(head.push(x) + s.subrange(p as int, s.len() as int) =~= s.insert(p as int, x));
    }
    out.insert(p, x);
}

/// Sorts by rank; values of the same rank stay in their order.
pub fn sort_ranked<T: Ranked>(values: Vec<T>) -> (r: Vec<T>)
    ensures
        r@ == ranked(values@),
{
    let ghost whole = values@;
    let mut forward = values;
    let mut backward: Vec<T> = Vec::new();
    while forward.len() > 0
        invariant
            forward@ + backward@.reverse() == whole,
        decreases forward.len(),
    {
        let ghost before = forward@;
        let ghost done = backward@;
        match forward.pop() {
            Some(x) => {
                backward.push(x);
                proof {
                    assert(before =~= forward@.push(x));
                    assert(backward@.reverse() =~= seq![x] + done.reverse());
                    assert(forward@ + backward@.reverse() =~= before + done.reverse());
                }
            },
            None => {},
        }
    }
    let mut out: Vec<T> = Vec::new();
    assert(forward@ =~= Seq::<T>::empty());
    assert(backward@.reverse() =~= whole);
    assert(whole.subrange(0, 0) =~= Seq::<T>::empty());
    while backward.len() > 0
        invariant
            backward@.len() <= whole.len(),
            out@ == ranked(whole.subrange(0, whole.len() - backward@.len())),
            backward@.reverse() == whole.subrange(
                whole.len() - backward@.len(),
                whole.len() as int,
            ),
        decreases backward.len(),
    {
        let ghost before = backward@;
        let ghost n = whole.len() - backward@.len();
        match backward.pop() {
            Some(x) => {
                proof {
                    assert(before.reverse()[0] == x);
                    assert(whole[n] == x);
                    let longer = whole.subrange(0, n + 1);
                    assert(longer.subrange(0, longer.len() - 1) == whole.subrange(0, n));
                    assert(backward@.reverse() =~= before.reverse().subrange(
                        1,
                        before.len() as int,
                    ));
                    assert(whole.subrange(n, whole.len() as int).subrange(1, before.len() as int)
                        =~= whole.subrange(n + 1, whole.len() as int));
                }
                place(&mut out, x);
            },
            None => {},
        }
    }
    assert(whole.subrange(0, whole.len() as int) =~= whole);
    out
}

/// The values of one rank, in their order.
pub open spec fn of_rank<T>(
    s: Seq<T>,
    rank: spec_fn(T) -> Seq<Seq<char>>,
    key: Seq<Seq<char>>,
) -> Seq<T>
    decreases s.len(),
{
    if s.len() == 0 {
        Seq::empty()
    } else {
        let rest = of_rank(s.subrange(0, s.len() - 1), rank, key);
        let last = s[s.len() - 1];
        if rank(last) == key {
            rest.push(last)
        } else {
            rest
        }
    }
}

/// A value is inserted behind all others of its rank.
proof fn lemma_insert_keeps_order<T>(
    s: Seq<T>,
    x: T,
    rank: spec_fn(T) -> Seq<Seq<char>>,
    key: Seq<Seq<char>>,
)
    ensures
        of_rank(insert_by(s, x, rank), rank, key) == of_rank(s.push(x), rank, key),
    decreases s.len(),
{
    let t = insert_by(s, x, rank);
    let pushed = s.push(x);
    assert(pushed.subrange(0, pushed.len() - 1) =~= s);
    if s.len() > 0 && rank_less(rank(x), rank(s[s.len() - 1])) {
        let init = s.subrange(0, s.len() - 1);
        let last = s[s.len() - 1];
        lemma_insert_keeps_order(init, x, rank, key);
        lemma_rank_total(rank(x), rank(last));
        let inner = insert_by(init, x, rank);
        let shorter = init.push(x);
        assert(t.subrange(0, t.len() - 1) =~= inner);
        assert(shorter.subrange(0, shorter.len() - 1) =~= init);
        let rest = of_rank(init, rank, key);
        assert(of_rank(s, rank, key) == if rank(last) == key {
            rest.push(last)
        } else {
            rest
        });
        assert(of_rank(shorter, rank, key) == if rank(x) == key {
            rest.push(x)
        } else {
            rest
        });
    }
}

/// Values of the same rank keep their order where they are sorted.
pub proof fn law_sorting_is_stable<T>(
    s: Seq<T>,
    rank: spec_fn(T) -> Seq<Seq<char>>,
    key: Seq<Seq<char>>,
)
    ensures
        of_rank(sort_by(s, rank), rank, key) == of_rank(s, rank, key),
    decreases s.len(),
{
    if s.len() > 0 {
        let init = s.subrange(0, s.len() - 1);
        let last = s[s.len() - 1];
        law_sorting_is_stable(init, rank, key);
        lemma_insert_keeps_order(sort_by(init, rank), last, rank, key);
        let p = sort_by(init, rank).push(last);
        assert(p.subrange(0, p.len() - 1) =~= sort_by(init, rank));
    }
}

} // verus!
