//! Stable ordering of records by a rank and a text, the order that a stable
//! sort by `(rank, text)` with `str`'s own ordering gives.
use vstd::prelude::*;

use crate::text::chars_of;

verus! {

/// `a` comes before `b` in the order of `str`: code point by code point, a
/// proper prefix first.
pub open spec fn text_lt(a: Seq<char>, b: Seq<char>) -> bool
    decreases a.len(),
{
    if a.len() == 0 {
        b.len() > 0
    } else if b.len() == 0 {
        false
    } else if a[0] != b[0] {
        a[0] < b[0]
    } else {
        text_lt(a.drop_first(), b.drop_first())
    }
}

/// No text comes before itself.
pub proof fn lemma_text_lt_irreflexive(a: Seq<char>)
    ensures
        !text_lt(a, a),
    decreases a.len(),
{
    if a.len() > 0 {
        lemma_text_lt_irreflexive(a.drop_first());
    }
}

/// The order of texts is transitive.
pub proof fn lemma_text_lt_transitive(a: Seq<char>, b: Seq<char>, c: Seq<char>)
    requires
        text_lt(a, b),
        text_lt(b, c),
    ensures
        text_lt(a, c),
    decreases a.len(),
{
    if a.len() > 0 && b.len() > 0 && c.len() > 0 {
        if a[0] == b[0] && b[0] == c[0] {
            lemma_text_lt_transitive(a.drop_first(), b.drop_first(), c.drop_first());
        }
    }
}

/// Of two different texts, one comes before the other.
pub proof fn lemma_text_lt_total(a: Seq<char>, b: Seq<char>)
    ensures
        a == b || text_lt(a, b) || text_lt(b, a),
    decreases a.len(),
{
    if a.len() == 0 && b.len() == 0 {
        assert(a =~= b);
    } else if a.len() > 0 && b.len() > 0 && a[0] == b[0] {
        lemma_text_lt_total(a.drop_first(), b.drop_first());
        if a.drop_first() == b.drop_first() {
            assert(a =~= seq![a[0]] + a.drop_first());
            assert(b =~= seq![b[0]] + b.drop_first());
        }
    }
}

/// The rank and the text of each key.
pub open spec fn key_views(keys: Seq<(i64, String)>) -> Seq<(i64, Seq<char>)> {
    keys.map_values(|k: (i64, String)| (k.0, k.1@))
}

/// Entry `i` comes before entry `j`: by rank, then by text, then by
/// position, which keeps entries with equal keys in their order.
pub open spec fn before(k: Seq<(i64, Seq<char>)>, i: int, j: int) -> bool {
    ||| k[i].0 < k[j].0
    ||| (k[i].0 == k[j].0 && text_lt(k[i].1, k[j].1))
    ||| (k[i].0 == k[j].0 && k[i].1 == k[j].1 && i < j)
}

/// The order of entries is transitive.
pub proof fn lemma_before_transitive(k: Seq<(i64, Seq<char>)>, i: int, j: int, l: int)
    requires
        before(k, i, j),
        before(k, j, l),
    ensures
        before(k, i, l),
{
    if k[i].0 == k[j].0 && k[j].0 == k[l].0 {
        if text_lt(k[i].1, k[j].1) && text_lt(k[j].1, k[l].1) {
            lemma_text_lt_transitive(k[i].1, k[j].1, k[l].1);
        }
    }
}

/// Of two different entries, one comes before the other, and not both.
pub proof fn lemma_before_total(k: Seq<(i64, Seq<char>)>, i: int, j: int)
    requires
        i != j,
    ensures
        before(k, i, j) != before(k, j, i),
{
    lemma_text_lt_total(k[i].1, k[j].1);
    if k[i].0 == k[j].0 && text_lt(k[i].1, k[j].1) && text_lt(k[j].1, k[i].1) {
        lemma_text_lt_transitive(k[i].1, k[j].1, k[i].1);
        lemma_text_lt_irreflexive(k[i].1);
    }
    if k[i].1 == k[j].1 {
        lemma_text_lt_irreflexive(k[i].1);
    }
}

/// `p` lists the positions `0..k.len()` in the order of the entries.
pub open spec fn is_sorted_order(k: Seq<(i64, Seq<char>)>, p: Seq<usize>) -> bool {
    &&& p.len() == k.len()
    &&& forall|a: int| 0 <= a < p.len() ==> #[trigger] p[a] < k.len()
    &&& forall|x: int| 0 <= x < k.len() ==> #[trigger] p.contains(x as usize)
    &&& forall|a: int, b: int| 0 <= a < b < p.len() ==> before(k, p[a] as int, p[b] as int)
}

/// No entry comes before itself.
pub proof fn lemma_before_irreflexive(k: Seq<(i64, Seq<char>)>, i: int)
    ensures
        !before(k, i, i),
{
    lemma_text_lt_irreflexive(k[i].1);
}

/// There is only one sorted order of the positions: a stable sort has a
/// single possible outcome.
pub proof fn lemma_sorted_order_unique(k: Seq<(i64, Seq<char>)>, p: Seq<usize>, q: Seq<usize>)
    requires
        is_sorted_order(k, p),
        is_sorted_order(k, q),
    ensures
        p == q,
{
    assert forall|a: int| 0 <= a < p.len() implies p[a] == q[a] by {
        lemma_prefix_agree(k, p, q, a);
    }
    assert(p =~= q);
}

/// Two sorted orders agree at position `a`, by induction on `a`: the entry
/// placed there in one order cannot sit later in the other.
proof fn lemma_prefix_agree(k: Seq<(i64, Seq<char>)>, p: Seq<usize>, q: Seq<usize>, a: int)
    requires
        is_sorted_order(k, p),
        is_sorted_order(k, q),
        0 <= a < p.len(),
    ensures
        p[a] == q[a],
    decreases a,
{
    assert forall|c: int| 0 <= c < a implies p[c] == q[c] by {
        lemma_prefix_agree(k, p, q, c);
    }
    let x = p[a];
    let y = q[a];
    if x != y {
        assert(x < k.len());
        assert(q.contains((x as int) as usize));
        let b = choose|b: int| 0 <= b < q.len() && q[b] == x;
        assert(y < k.len());
        assert(p.contains((y as int) as usize));
        let c = choose|c: int| 0 <= c < p.len() && p[c] == y;
        if b < a {
            assert(p[b] == x);
            assert(before(k, p[b] as int, p[a] as int));
            lemma_before_irreflexive(k, x as int);
        }
        if c < a {
            assert(q[c] == y);
            assert(before(k, q[c] as int, q[a] as int));
            lemma_before_irreflexive(k, y as int);
        }
        assert(before(k, q[a] as int, q[b] as int));
        assert(before(k, p[a] as int, p[c] as int));
        lemma_before_total(k, x as int, y as int);
    }
}

/// Whether entry `i` comes before entry `j`.
fn entry_before(keys: &Vec<(i64, String)>, i: usize, j: usize) -> (b: bool)
    requires
        i < keys@.len(),
        j < keys@.len(),
    ensures
        b == before(key_views(keys@), i as int, j as int),
{
    let ghost k = key_views(keys@);
    assert(k[i as int] == (keys@[i as int].0, keys@[i as int].1@));
    assert(k[j as int] == (keys@[j as int].0, keys@[j as int].1@));
    let ri = keys[i].0;
    let rj = keys[j].0;
    if ri != rj {
        return ri < rj;
    }
    let a = chars_of(keys[i].1.as_str());
    let c = chars_of(keys[j].1.as_str());
    match text_compare(&a, &c) {
        0 => i < j,
        1 => true,
        _ => false,
    }
}

/// Compares two texts: 0 when equal, 1 when `a` comes first, 2 otherwise.
fn text_compare(a: &Vec<char>, b: &Vec<char>) -> (r: u8)
    ensures
        r == 0 <==> a@ == b@,
        r == 1 <==> text_lt(a@, b@),
        r <= 2,
{
    let mut i: usize = 0;
    while i < a.len() && i < b.len()
        invariant
            i <= a@.len(),
            i <= b@.len(),
            a@.take(i as int) == b@.take(i as int),
        decreases a.len() - i,
    {
        if a[i] != b[i] {
            proof {
                lemma_text_lt_common_prefix(a@, b@, i as int);
                lemma_text_lt_total(a@, b@);
                lemma_text_lt_irreflexive(a@);
            }
            assert(a@[i as int] != b@[i as int]);
            if a[i] < b[i] {
                return 1;
            } else {
                assert(a@ != b@);
                return 2;
            }
        }
        i = i + 1;
        assert(a@.take(i as int) =~= a@.take(i - 1).push(a@[i - 1]));
        assert(b@.take(i as int) =~= b@.take(i - 1).push(b@[i - 1]));
    }
    proof {
        lemma_text_lt_common_prefix(a@, b@, i as int);
        lemma_text_lt_irreflexive(a@);
        if i == a.len() && i == b.len() {
            assert(a@ =~= a@.take(i as int));
            assert(b@ =~= b@.take(i as int));
        }
        if a@ == b@ {
            lemma_text_lt_irreflexive(a@);
        }
    }
    if i == a.len() && i == b.len() {
        0
    } else if i == a.len() {
        assert(a@.len() != b@.len());
        1
    } else {
        assert(a@.len() != b@.len());
        2
    }
}

/// Texts that agree on their first `i` characters compare as what follows.
proof fn lemma_text_lt_common_prefix(a: Seq<char>, b: Seq<char>, i: int)
    requires
        0 <= i <= a.len(),
        i <= b.len(),
        a.take(i) == b.take(i),
    ensures
        text_lt(a, b) == text_lt(a.skip(i), b.skip(i)),
    decreases i,
{
    if i > 0 {
        assert(a[0] == a.take(i)[0]);
        assert(b[0] == b.take(i)[0]);
        assert(a.drop_first().take(i - 1) =~= a.take(i).drop_first());
        assert(b.drop_first().take(i - 1) =~= b.take(i).drop_first());
        lemma_text_lt_common_prefix(a.drop_first(), b.drop_first(), i - 1);
        assert(a.drop_first().skip(i - 1) =~= a.skip(i));
        assert(b.drop_first().skip(i - 1) =~= b.skip(i));
    } else {
        assert(a.skip(0) =~= a);
        assert(b.skip(0) =~= b);
    }
}

/// The positions of `keys` in the order of their ranks and texts, equal
/// keys in their own order: what a stable sort by `(rank, text)` yields.
pub fn sorted_order(keys: &Vec<(i64, String)>) -> (p: Vec<usize>)
    ensures
        is_sorted_order(key_views(keys@), p@),
{
    let ghost k = key_views(keys@);
    let mut p: Vec<usize> = Vec::new();
    let mut i: usize = 0;
    while i < keys.len()
        invariant
            i <= keys@.len(),
            k == key_views(keys@),
            p@.len() == i,
            forall|a: int| 0 <= a < p@.len() ==> #[trigger] p@[a] < i,
            forall|x: int| 0 <= x < i ==> #[trigger] p@.contains(x as usize),
            forall|a: int, b: int| 0 <= a < b < p@.len() ==> before(k, p@[a] as int, p@[b] as int),
        decreases keys.len() - i,
    {
        let mut pos: usize = 0;
        while pos < p.len() && !entry_before(keys, i, p[pos])
            invariant
                i < keys@.len(),
                pos <= p@.len(),
                k == key_views(keys@),
                forall|a: int| 0 <= a < p@.len() ==> #[trigger] p@[a] < i,
                forall|a: int| 0 <= a < pos ==> !before(k, i as int, #[trigger] p@[a] as int),
            decreases p.len() - pos,
        {
            pos = pos + 1;
        }
        let ghost old_p = p@;
        p.insert(pos, i);
        proof {
            assert(p@ == old_p.insert(pos as int, i));
            assert forall|a: int| 0 <= a < pos implies before(k, old_p[a] as int, i as int) by {
                lemma_before_total(k, i as int, old_p[a] as int);
            }
            assert forall|a: int| pos <= a < old_p.len() implies before(
                k,
                i as int,
                old_p[a] as int,
            ) by {
                if a > pos {
                    lemma_before_transitive(k, i as int, old_p[pos as int] as int, old_p[a] as int);
                }
            }
            assert forall|a: int, b: int| 0 <= a < b < p@.len() implies before(
                k,
                p@[a] as int,
                p@[b] as int,
            ) by {
                if b < pos {
                } else if b == pos {
                } else if a < pos {
                    lemma_before_transitive(k, p@[a] as int, i as int, p@[b] as int);
                } else if a == pos {
                } else {
                }
            }
            assert forall|x: int| 0 <= x < i + 1 implies #[trigger] p@.contains(x as usize) by {
                if x == i {
                    assert(p@[pos as int] == i);
                } else {
                    assert(old_p.contains(x as usize));
                    let c = choose|c: int| 0 <= c < old_p.len() && old_p[c] == x as usize;
                    if c < pos {
                        assert(p@[c] == x as usize);
                    } else {
                        assert(p@[c + 1] == x as usize);
                    }
                }
            }
        }
        i = i + 1;
    }
    p
}

} // verus!
