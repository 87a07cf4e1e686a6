//! Lexicographic order on strings and stable sorting by a string key.
//!
//! `String`'s `Ord` compares UTF-8 bytes; since UTF-8 keeps the order of code
//! points, that is the lexicographic order on characters by code point, which
//! is what `lex_lt` states.
use vstd::prelude::*;

verus! {

/// Strict lexicographic order on character sequences, by code point.
pub open spec fn lex_lt(a: Seq<char>, b: Seq<char>) -> bool
    decreases a.len(),
{
    if a.len() == 0 {
        b.len() > 0
    } else if b.len() == 0 {
        false
    } else if a[0] < b[0] {
        true
    } else if a[0] == b[0] {
        lex_lt(a.drop_first(), b.drop_first())
    } else {
        false
    }
}

/// `a <= b` in the lexicographic order.
pub open spec fn lex_le(a: Seq<char>, b: Seq<char>) -> bool {
    !lex_lt(b, a)
}

/// No sequence is below itself.
pub proof fn lemma_lex_irreflexive(a: Seq<char>)
    ensures
        !lex_lt(a, a),
    decreases a.len(),
{
    if a.len() > 0 {
        lemma_lex_irreflexive(a.drop_first());
    }
}

/// The order is asymmetric.
pub proof fn lemma_lex_asymmetric(a: Seq<char>, b: Seq<char>)
    ensures
        !(lex_lt(a, b) && lex_lt(b, a)),
    decreases a.len(),
{
    if a.len() > 0 && b.len() > 0 && a[0] == b[0] {
        lemma_lex_asymmetric(a.drop_first(), b.drop_first());
    }
}

/// The order is transitive.
pub proof fn lemma_lex_transitive(a: Seq<char>, b: Seq<char>, c: Seq<char>)
    requires
        lex_lt(a, b),
        lex_lt(b, c),
    ensures
        lex_lt(a, c),
    decreases a.len(),
{
    if a.len() > 0 && b.len() > 0 && c.len() > 0 && a[0] == b[0] && b[0] == c[0] {
        lemma_lex_transitive(a.drop_first(), b.drop_first(), c.drop_first());
    }
}

/// Any two different sequences are ordered one way or the other.
pub proof fn lemma_lex_total(a: Seq<char>, b: Seq<char>)
    ensures
        a == b || lex_lt(a, b) || lex_lt(b, a),
    decreases a.len(),
{
    if a.len() > 0 && b.len() > 0 {
        if a[0] == b[0] {
            lemma_lex_total(a.drop_first(), b.drop_first());
            if a.drop_first() == b.drop_first() {
                assert(a =~= seq![a[0]] + a.drop_first());
                assert(b =~= seq![b[0]] + b.drop_first());
            }
        } else {
            assert(a[0] < b[0] || b[0] < a[0]);
        }
    } else if a.len() == 0 && b.len() == 0 {
        assert(a =~= b);
    }
}

/// `lex_lt` followed by `lex_le` is `lex_lt`.
pub proof fn lemma_lex_lt_le(a: Seq<char>, b: Seq<char>, c: Seq<char>)
    requires
        lex_lt(a, b),
        lex_le(b, c),
    ensures
        lex_lt(a, c),
{
    lemma_lex_total(b, c);
    if b != c {
        if lex_lt(b, c) {
            lemma_lex_transitive(a, b, c);
        }
    }
}

/// Executable strict lexicographic comparison.
pub fn chars_less(a: &Vec<char>, b: &Vec<char>) -> (r: bool)
    ensures
        r == lex_lt(a@, b@),
{
    let mut i: usize = 0;
    assert(a@.skip(0) == a@);
    assert(b@.skip(0) == b@);
    while i < a.len() && i < b.len() && a[i] == b[i]
        invariant
            i <= a.len(),
            i <= b.len(),
            lex_lt(a@, b@) == lex_lt(a@.skip(i as int), b@.skip(i as int)),
        decreases a.len() - i,
    {
        proof {
            let sa = a@.skip(i as int);
            let sb = b@.skip(i as int);
            assert(sa.drop_first() == a@.skip(i + 1));
            assert(sb.drop_first() == b@.skip(i + 1));
            assert(sa[0] == sb[0]);
        }
        i = i + 1;
    }
    let sa = Ghost(a@.skip(i as int));
    let sb = Ghost(b@.skip(i as int));
    if i == a.len() {
        assert(sa@.len() == 0);
        i < b.len()
    } else if i == b.len() {
        false
    } else {
        assert(sa@[0] == a@[i as int]);
        assert(sb@[0] == b@[i as int]);
        a[i] < b[i]
    }
}

/// `order` lists every position below `keys.len()` once, arranges the keys in
/// non-decreasing order, and keeps positions with equal keys in their input
/// order: a stable sort of positions by key.
pub open spec fn is_stable_order(keys: Seq<Seq<char>>, order: Seq<usize>) -> bool {
    &&& order.len() == keys.len()
    &&& forall|i: int| 0 <= i < order.len() ==> #[trigger] order[i] < keys.len()
    &&& forall|i: int, j: int| 0 <= i < j < order.len() ==> order[i] != order[j]
    &&& forall|i: int, j: int|
        0 <= i < j < order.len() ==> lex_le(
            #[trigger] keys[order[i] as int],
            #[trigger] keys[order[j] as int],
        )
    &&& forall|i: int, j: int|
        0 <= i < j < order.len() && keys[order[i] as int] == keys[order[j] as int] ==> order[i]
            < order[j]
}

/// The positions `order` lists are exactly those below its length.
pub proof fn lemma_stable_order_covers(keys: Seq<Seq<char>>, order: Seq<usize>, k: int)
    requires
        is_stable_order(keys, order),
        0 <= k < keys.len(),
        keys.len() <= usize::MAX,
    ensures
        exists|i: int| 0 <= i < order.len() && order[i] == k,
{
    let s = order.to_set();
    let full = Set::new(|x: usize| x < keys.len());
    vstd::set_lib::lemma_int_range(0, keys.len() as int);
    assert(order.no_duplicates());
    order.unique_seq_to_set();
    assert(s.subset_of(full));
    lemma_full_range_size(keys.len() as nat);
    if !s.contains(k as usize) {
        vstd::set_lib::lemma_len_subset(s, full.remove(k as usize));
    }
}

proof fn lemma_full_range_size(n: nat)
    requires
        n <= usize::MAX + 1,
    ensures
        Set::new(|x: usize| x < n).finite(),
        Set::new(|x: usize| x < n).len() == n,
    decreases n,
{
    let full = Set::new(|x: usize| x < n);
    if n == 0 {
        assert(full =~= Set::empty());
    } else {
        lemma_full_range_size((n - 1) as nat);
        let smaller = Set::new(|x: usize| x < (n - 1) as nat);
        assert forall|x: usize| full.contains(x) <==> smaller.insert((n - 1) as usize).contains(
            x,
        ) by {}
        assert(full =~= smaller.insert((n - 1) as usize));
        assert(!smaller.contains((n - 1) as usize));
    }
}

/// First position in `order` whose key is strictly above `key`.
fn upper_bound(keys: &Vec<Vec<char>>, order: &Vec<usize>, key: &Vec<char>) -> (pos: usize)
    requires
        forall|i: int| 0 <= i < order.len() ==> #[trigger] order@[i] < keys.len(),
        forall|i: int, j: int|
            0 <= i < j < order.len() ==> lex_le(
                #[trigger] keys@[order@[i] as int]@,
                #[trigger] keys@[order@[j] as int]@,
            ),
    ensures
        pos <= order.len(),
        forall|i: int| 0 <= i < pos ==> !lex_lt(key@, #[trigger] keys@[order@[i] as int]@),
        forall|i: int|
            pos <= i < order.len() ==> lex_lt(key@, #[trigger] keys@[order@[i] as int]@),
{
    let mut lo: usize = 0;
    let mut hi: usize = order.len();
    while lo < hi
        invariant
            lo <= hi <= order.len(),
            forall|i: int| 0 <= i < order.len() ==> #[trigger] order@[i] < keys.len(),
            forall|i: int, j: int|
                0 <= i < j < order.len() ==> lex_le(
                    #[trigger] keys@[order@[i] as int]@,
                    #[trigger] keys@[order@[j] as int]@,
                ),
            forall|i: int| 0 <= i < lo ==> !lex_lt(key@, #[trigger] keys@[order@[i] as int]@),
            forall|i: int|
                hi <= i < order.len() ==> lex_lt(key@, #[trigger] keys@[order@[i] as int]@),
        decreases hi - lo,
    {
        let mid = lo + (hi - lo) / 2;
        if chars_less(key, &keys[order[mid]]) {
            proof {
                assert forall|i: int| mid <= i < order.len() implies lex_lt(
                    key@,
                    #[trigger] keys@[order@[i] as int]@,
                ) by {
                    if i > mid {
                        lemma_lex_lt_le(
                            key@,
                            keys@[order@[mid as int] as int]@,
                            keys@[order@[i] as int]@,
                        );
                    }
                }
            }
            hi = mid;
        } else {
            proof {
                assert forall|i: int| 0 <= i <= mid implies !lex_lt(
                    key@,
                    #[trigger] keys@[order@[i] as int]@,
                ) by {
                    if i < mid && lex_lt(key@, keys@[order@[i] as int]@) {
                        lemma_lex_lt_le(
                            key@,
                            keys@[order@[i] as int]@,
                            keys@[order@[mid as int] as int]@,
                        );
                    }
                }
            }
            lo = mid + 1;
        }
    }
    lo
}

/// The views of a vector of character vectors.
pub open spec fn key_views(keys: Seq<Vec<char>>) -> Seq<Seq<char>> {
    keys.map_values(|k: Vec<char>| k@)
}

/// A stable sort of positions by key (binary insertion).
pub fn stable_order(keys: &Vec<Vec<char>>) -> (order: Vec<usize>)
    ensures
        is_stable_order(key_views(keys@), order@),
{
    let ghost kv = key_views(keys@);
    let mut order: Vec<usize> = Vec::new();
    let mut k: usize = 0;
    while k < keys.len()
        invariant
            kv == key_views(keys@),
            k <= keys.len(),
            order.len() == k,
            forall|i: int| 0 <= i < order.len() ==> #[trigger] order@[i] < k,
            forall|i: int, j: int| 0 <= i < j < order.len() ==> order@[i] != order@[j],
            forall|i: int, j: int|
                0 <= i < j < order.len() ==> lex_le(
                    #[trigger] kv[order@[i] as int],
                    #[trigger] kv[order@[j] as int],
                ),
            forall|i: int, j: int|
                0 <= i < j < order.len() && kv[order@[i] as int] == kv[order@[j] as int]
                    ==> order@[i] < order@[j],
        decreases keys.len() - k,
    {
        proof {
            assert forall|i: int| 0 <= i < order.len() implies #[trigger] order@[i]
                < keys.len() by {}
            assert forall|i: int, j: int| 0 <= i < j < order.len() implies lex_le(
                #[trigger] keys@[order@[i] as int]@,
                #[trigger] keys@[order@[j] as int]@,
            ) by {
                assert(kv[order@[i] as int] == keys@[order@[i] as int]@);
                assert(kv[order@[j] as int] == keys@[order@[j] as int]@);
            }
        }
        let pos = upper_bound(keys, &order, &keys[k]);
        let ghost old_order = order@;
        order.insert(pos, k);
        proof {
            assert(kv[k as int] == keys@[k as int]@);
            assert forall|i: int| 0 <= i < old_order.len() implies kv[old_order[i] as int]
                == keys@[old_order[i] as int]@ by {}
            assert forall|i: int| 0 <= i < order.len() implies #[trigger] order@[i] < k + 1 by {
                if i < pos {
                    assert(order@[i] == old_order[i]);
                } else if i > pos {
                    assert(order@[i] == old_order[i - 1]);
                }
            }
            assert forall|i: int, j: int| 0 <= i < j < order.len() implies order@[i]
                != order@[j] by {
                if i < pos {
                    assert(order@[i] == old_order[i]);
                } else if i > pos {
                    assert(order@[i] == old_order[i - 1]);
                }
                if j < pos {
                    assert(order@[j] == old_order[j]);
                } else if j > pos {
                    assert(order@[j] == old_order[j - 1]);
                }
            }
            assert forall|i: int, j: int| 0 <= i < j < order.len() implies lex_le(
                #[trigger] kv[order@[i] as int],
                #[trigger] kv[order@[j] as int],
            ) && (kv[order@[i] as int] == kv[order@[j] as int] ==> order@[i] < order@[j]) by {
                if i < pos && j < pos {
                    assert(order@[i] == old_order[i]);
                    assert(order@[j] == old_order[j]);
                } else if i > pos && j > pos {
                    assert(order@[i] == old_order[i - 1]);
                    assert(order@[j] == old_order[j - 1]);
                } else if i < pos && j == pos {
                    assert(order@[i] == old_order[i]);
                    lemma_lex_total(kv[k as int], kv[old_order[i] as int]);
                } else if i < pos && j > pos {
                    assert(order@[i] == old_order[i]);
                    assert(order@[j] == old_order[j - 1]);
                } else {
                    // i == pos < j
                    assert(order@[j] == old_order[j - 1]);
                    assert(lex_lt(kv[k as int], kv[old_order[j - 1] as int]));
                    lemma_lex_asymmetric(kv[k as int], kv[old_order[j - 1] as int]);
                    lemma_lex_irreflexive(kv[k as int]);
                }
            }
        }
        k = k + 1;
    }
    order
}

} // verus!
