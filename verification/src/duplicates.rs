//! Grouping items by content hash.
use vstd::prelude::*;

use crate::models::{DuplicateGroup, MediaItem};
use crate::order::{
    is_stable_order, key_views, lemma_lex_asymmetric, lemma_lex_irreflexive, lemma_lex_total, lemma_stable_order_covers, lex_le, lex_lt, stable_order,
};
use crate::scan::{is_path_sort_of, sort_by_path};
use crate::seqs::{lemma_filter_take_succ, lemma_map_push, lemma_take_all};
use crate::text::{chars_equal, chars_of};

verus! {

/// Items that take part in duplicate detection: those with a content hash,
/// under the given root if one is given.
pub open spec fn is_dup_candidate(root_id: Option<Seq<char>>) -> spec_fn(MediaItem) -> bool {
    |m: MediaItem|
        (match root_id {
            Some(r) => m.root_id@ == r,
            None => true,
        }) && m.content_hash is Some
}

/// Items with the given content hash.
pub open spec fn with_hash(h: Seq<char>) -> spec_fn(MediaItem) -> bool {
    |m: MediaItem| m.content_hash matches Some(x) && x@ == h
}

/// The content hash of an item that has one.
pub open spec fn hash_of(m: MediaItem) -> Seq<char> {
    m.content_hash->Some_0@
}

/// `groups` are the duplicate groups of the candidates `cand`: one per hash
/// that two or more candidates share, in increasing hash order, each holding
/// the candidates with that hash in a stable sort by path.
pub open spec fn is_duplicate_grouping(groups: Seq<DuplicateGroup>, cand: Seq<MediaItem>) -> bool {
    &&& forall|i: int, j: int|
        0 <= i < j < groups.len() ==> lex_lt(#[trigger] groups[i].hash@, #[trigger] groups[j].hash@)
    &&& forall|i: int|
        0 <= i < groups.len() ==> cand.filter(with_hash(#[trigger] groups[i].hash@)).len() >= 2
            && is_path_sort_of(groups[i].items@, cand.filter(with_hash(groups[i].hash@)))
    &&& forall|k: int|
        0 <= k < cand.len() && cand.filter(with_hash(hash_of(#[trigger] cand[k]))).len() >= 2
            ==> exists|i: int| 0 <= i < groups.len() && groups[i].hash@ == hash_of(cand[k])
}

/// Listing, in increasing order, the positions of the elements that satisfy
/// `p` gives the filtered sequence.
pub proof fn lemma_increasing_positions_filter<A>(s: Seq<A>, p: spec_fn(A) -> bool, idx: Seq<usize>)
    requires
        s.len() <= usize::MAX,
        forall|a: int, b: int| 0 <= a < b < idx.len() ==> idx[a] < idx[b],
        forall|a: int| 0 <= a < idx.len() ==> #[trigger] idx[a] < s.len() && p(s[idx[a] as int]),
        forall|i: int| 0 <= i < s.len() && p(#[trigger] s[i]) ==> idx.contains(i as usize),
    ensures
        idx.map_values(|k: usize| s[k as int]) == s.filter(p),
    decreases s.len(),
{
    reveal(Seq::filter);
    if s.len() == 0 {
        assert(idx.len() == 0) by {
            if idx.len() > 0 {
                assert(idx[0] < s.len());
            }
        }
        assert(idx.map_values(|k: usize| s[k as int]) =~= Seq::<A>::empty());
    } else {
        let last = (s.len() - 1) as int;
        let sd = s.drop_last();
        if p(s[last]) {
            assert(idx.contains(last as usize));
            let q = choose|q: int| 0 <= q < idx.len() && idx[q] == last as usize;
            assert(q == idx.len() - 1) by {
                if q < idx.len() - 1 {
                    assert(idx[q] < idx[idx.len() - 1]);
                    assert(idx[idx.len() - 1] < s.len());
                }
            }
            let id = idx.drop_last();
            assert forall|a: int| 0 <= a < id.len() implies #[trigger] id[a] < sd.len() && p(sd[id[a] as int]) by {
                assert(id[a] == idx[a]);
                assert(idx[a] < idx[q]);
            }
            assert forall|i: int| 0 <= i < sd.len() && p(#[trigger] sd[i]) implies id.contains(i as usize) by {
                assert(sd[i] == s[i]);
                assert(idx.contains(i as usize));
                let r = choose|r: int| 0 <= r < idx.len() && idx[r] == i as usize;
                assert(r != q);
                assert(id[r] == idx[r]);
            }
            lemma_increasing_positions_filter(sd, p, id);
            assert(idx.map_values(|k: usize| s[k as int]) =~= id.map_values(|k: usize| sd[k as int]).push(s[last])) by {
                assert forall|a: int| 0 <= a < id.len() implies s[id[a] as int] == sd[id[a] as int] by {
                    assert(id[a] == idx[a]);
                    assert(idx[a] < idx[q]);
                }
            }
        } else {
            assert forall|a: int| 0 <= a < idx.len() implies #[trigger] idx[a] < sd.len() && p(sd[idx[a] as int]) by {
                if idx[a] == last {
                    assert(false);
                }
                assert(sd[idx[a] as int] == s[idx[a] as int]);
            }
            assert forall|i: int| 0 <= i < sd.len() && p(#[trigger] sd[i]) implies idx.contains(i as usize) by {
                assert(sd[i] == s[i]);
            }
            lemma_increasing_positions_filter(sd, p, idx);
            assert(idx.map_values(|k: usize| s[k as int]) =~= idx.map_values(|k: usize| sd[k as int])) by {
                assert forall|a: int| 0 <= a < idx.len() implies s[idx[a] as int] == sd[idx[a] as int] by {
                    if idx[a] == last {
                        assert(false);
                    }
                }
            }
        }
    }
}

/// The characters of each candidate's content hash.
fn hash_keys(cand: &Vec<MediaItem>) -> (keys: Vec<Vec<char>>)
    requires
        forall|i: int| 0 <= i < cand.len() ==> (#[trigger] cand@[i]).content_hash is Some,
    ensures
        keys@.len() == cand@.len(),
        forall|i: int| 0 <= i < cand.len() ==> #[trigger] keys@[i]@ == hash_of(cand@[i]),
{
    let mut keys: Vec<Vec<char>> = Vec::new();
    let mut i: usize = 0;
    while i < cand.len()
        invariant
            i <= cand.len(),
            forall|i: int| 0 <= i < cand.len() ==> (#[trigger] cand@[i]).content_hash is Some,
            keys@.len() == i,
            forall|j: int| 0 <= j < i ==> #[trigger] keys@[j]@ == hash_of(cand@[j]),
        decreases cand.len() - i,
    {
        let k = match &cand[i].content_hash {
            Some(h) => chars_of(h.as_str()),
            None => Vec::new(),
        };
        keys.push(k);
        i = i + 1;
    }
    keys
}

/// The candidates for duplicate detection, in library order.
pub fn duplicate_candidates(media: &Vec<MediaItem>, root_id: Option<&str>) -> (r: Vec<MediaItem>)
    ensures
        r@ == media@.filter(
            is_dup_candidate(
                match root_id {
                    Some(s) => Some(s@),
                    None => None,
                },
            ),
        ),
{
    let ghost root = match root_id {
        Some(s) => Some(s@),
        None => None,
    };
    let ghost p = is_dup_candidate(root);
    let root_chars: Option<Vec<char>> = match root_id {
        Some(s) => Some(chars_of(s)),
        None => None,
    };
    let mut r: Vec<MediaItem> = Vec::new();
    let mut i: usize = 0;
    while i < media.len()
        invariant
            i <= media.len(),
            p == is_dup_candidate(root),
            root == (match root_id {
                Some(s) => Some(s@),
                None => None,
            }),
            match root_chars {
                Some(c) => root == Some(c@),
                None => root is None,
            },
            r@ == media@.take(i as int).filter(p),
        decreases media.len() - i,
    {
        proof {
            lemma_filter_take_succ(media@, i as int, p);
        }
        let in_scope = match &root_chars {
            Some(c) => {
                let own = chars_of(media[i].root_id.as_str());
                chars_equal(&own, c)
            },
            None => true,
        };
        if in_scope && media[i].content_hash.is_some() {
            r.push(media[i].clone());
        }
        i = i + 1;
    }
    proof {
        lemma_take_all(media@);
    }
    r
}


proof fn lemma_lex_antisymmetric(a: Seq<char>, b: Seq<char>)
    requires
        lex_le(a, b),
        lex_le(b, a),
    ensures
        a == b,
{
    lemma_lex_total(a, b);
}

/// A maximal run of equal keys in a stable order lists, in order, the
/// positions of the candidates with that key.
proof fn lemma_run_is_filter(cand: Seq<MediaItem>, hk: Seq<Seq<char>>, order: Seq<usize>, a: int, b: int)
    requires
        cand.len() <= usize::MAX,
        hk.len() == cand.len(),
        forall|i: int| 0 <= i < cand.len() ==> (#[trigger] cand[i]).content_hash is Some,
        forall|i: int| 0 <= i < cand.len() ==> #[trigger] hk[i] == hash_of(cand[i]),
        is_stable_order(hk, order),
        0 <= a < b <= order.len(),
        forall|q: int| a <= q < b ==> #[trigger] hk[order[q] as int] == hk[order[a] as int],
        a == 0 || hk[order[a - 1] as int] != hk[order[a] as int],
        b == order.len() || hk[order[b] as int] != hk[order[a] as int],
    ensures
        order.subrange(a, b).map_values(|k: usize| cand[k as int]) == cand.filter(
            with_hash(hk[order[a] as int]),
        ),
{
    let h = hk[order[a] as int];
    let idx = order.subrange(a, b);
    let p = with_hash(h);
    assert forall|x: int, y: int| 0 <= x < y < idx.len() implies idx[x] < idx[y] by {
        assert(idx[x] == order[a + x]);
        assert(idx[y] == order[a + y]);
        assert(hk[order[a + x] as int] == h);
        assert(hk[order[a + y] as int] == h);
    }
    assert forall|x: int| 0 <= x < idx.len() implies #[trigger] idx[x] < cand.len() && p(
        cand[idx[x] as int],
    ) by {
        assert(idx[x] == order[a + x]);
        assert(hk[order[a + x] as int] == h);
    }
    assert forall|i: int| 0 <= i < cand.len() && p(#[trigger] cand[i]) implies idx.contains(
        i as usize,
    ) by {
        assert(hk[i] == h);
        lemma_stable_order_covers(hk, order, i);
        let q = choose|q: int| 0 <= q < order.len() && order[q] == i;
        if q < a {
            let y = hk[order[a - 1] as int];
            if q < a - 1 {
                assert(lex_le(hk[order[q] as int], hk[order[a - 1] as int]));
            } else {
                lemma_lex_irreflexive(h);
            }
            assert(lex_le(y, h));
            lemma_lex_antisymmetric(h, y);
        } else if q >= b {
            let z = hk[order[b] as int];
            assert(lex_le(hk[order[b - 1] as int], z));
            assert(hk[order[b - 1] as int] == h);
            if q > b {
                assert(lex_le(hk[order[b] as int], hk[order[q] as int]));
            } else {
                lemma_lex_irreflexive(h);
            }
            lemma_lex_antisymmetric(h, z);
        } else {
            assert(idx[q - a] == i);
        }
    }
    lemma_increasing_positions_filter(cand, p, idx);
}

/// The candidates at positions `order[a..b]`, in that order.
fn pick(cand: &Vec<MediaItem>, order: &Vec<usize>, a: usize, b: usize) -> (r: Vec<MediaItem>)
    requires
        a <= b <= order.len(),
        forall|q: int| 0 <= q < order.len() ==> #[trigger] order@[q] < cand.len(),
    ensures
        r@ == order@.subrange(a as int, b as int).map_values(|k: usize| cand@[k as int]),
{
    let mut r: Vec<MediaItem> = Vec::new();
    let mut q: usize = a;
    while q < b
        invariant
            a <= q <= b <= order.len(),
            forall|q: int| 0 <= q < order.len() ==> #[trigger] order@[q] < cand.len(),
            r@ == order@.subrange(a as int, q as int).map_values(|k: usize| cand@[k as int]),
        decreases b - q,
    {
        r.push(cand[order[q]].clone());
        proof {
            assert(order@.subrange(a as int, q + 1) == order@.subrange(a as int, q as int).push(order@[q as int]));
            lemma_map_push(order@.subrange(a as int, q as int), order@[q as int], |k: usize| cand@[k as int]);
        }
        q = q + 1;
    }
    r
}

/// The duplicate groups of candidates that all have a content hash.
pub fn group_duplicates(cand: &Vec<MediaItem>) -> (groups: Vec<DuplicateGroup>)
    requires
        forall|i: int| 0 <= i < cand.len() ==> (#[trigger] cand@[i]).content_hash is Some,
    ensures
        is_duplicate_grouping(groups@, cand@),
{
    let keys = hash_keys(cand);
    let ghost hk = key_views(keys@);
    proof {
        assert forall|i: int| 0 <= i < cand.len() implies #[trigger] hk[i] == hash_of(cand@[i]) by {
            assert(hk[i] == keys@[i]@);
        }
    }
    let order = stable_order(&keys);
    let n = order.len();
    let mut groups: Vec<DuplicateGroup> = Vec::new();
    let mut a: usize = 0;
    while a < n
        invariant
            n == order.len(),
            n == cand.len(),
            cand.len() <= usize::MAX,
            hk == key_views(keys@),
            hk.len() == cand.len(),
            forall|i: int| 0 <= i < cand.len() ==> (#[trigger] cand@[i]).content_hash is Some,
            forall|i: int| 0 <= i < cand.len() ==> #[trigger] hk[i] == hash_of(cand@[i]),
            is_stable_order(hk, order@),
            a <= n,
            a == 0 || a == n || hk[order@[a - 1] as int] != hk[order@[a as int] as int],
            forall|i: int, j: int|
                0 <= i < j < groups.len() ==> lex_lt(#[trigger] groups@[i].hash@, #[trigger] groups@[j].hash@),
            forall|i: int|
                0 <= i < groups.len() ==> cand@.filter(with_hash(#[trigger] groups@[i].hash@)).len() >= 2
                    && is_path_sort_of(groups@[i].items@, cand@.filter(with_hash(groups@[i].hash@))),
            a < n ==> forall|i: int| 0 <= i < groups.len() ==> lex_lt(#[trigger] groups@[i].hash@, hk[order@[a as int] as int]),
            forall|q: int|
                0 <= q < a && cand@.filter(with_hash(#[trigger] hk[order@[q] as int])).len() >= 2
                    ==> exists|i: int| 0 <= i < groups.len() && groups@[i].hash@ == hk[order@[q] as int],
        decreases n - a,
    {
        let ghost h = hk[order@[a as int] as int];
        let mut b: usize = a + 1;
        while b < n && chars_equal(&keys[order[b]], &keys[order[a]])
            invariant
                n == order.len(),
                hk == key_views(keys@),
                hk.len() == keys@.len(),
                is_stable_order(hk, order@),
                a < b <= n,
                h == hk[order@[a as int] as int],
                forall|q: int| a <= q < b ==> #[trigger] hk[order@[q] as int] == h,
            decreases n - b,
        {
            proof {
                assert(hk[order@[b as int] as int] == keys@[order@[b as int] as int]@);
                assert(hk[order@[a as int] as int] == keys@[order@[a as int] as int]@);
            }
            b = b + 1;
        }
        proof {
            if b < n {
                assert(hk[order@[b as int] as int] == keys@[order@[b as int] as int]@);
                assert(hk[order@[a as int] as int] == keys@[order@[a as int] as int]@);
            }
            lemma_run_is_filter(cand@, hk, order@, a as int, b as int);
        }
        let members = pick(cand, &order, a, b);
        let ghost old_groups = groups@;
        if b - a >= 2 {
            let items = sort_by_path(&members);
            let hash = match &cand[order[a]].content_hash {
                Some(x) => x.clone(),
                None => String::new(),
            };
            assert(hash@ == h);
            groups.push(DuplicateGroup { hash, items });
        }
        proof {
            if b < n {
                let z = hk[order@[b as int] as int];
                assert(lex_le(hk[order@[a as int] as int], z));
                lemma_lex_total(h, z);
                lemma_lex_asymmetric(h, z);
                assert(lex_lt(h, z));
                assert forall|i: int| 0 <= i < groups.len() implies lex_lt(#[trigger] groups@[i].hash@, z) by {
                    if i < old_groups.len() {
                        assert(groups@[i] == old_groups[i]);
                        crate::order::lemma_lex_transitive(groups@[i].hash@, h, z);
                    }
                }
            }
            assert forall|q: int|
                0 <= q < b && cand@.filter(with_hash(#[trigger] hk[order@[q] as int])).len() >= 2
                    implies exists|i: int| 0 <= i < groups.len() && groups@[i].hash@ == hk[order@[q] as int] by {
                if q < a {
                    let i = choose|i: int| 0 <= i < old_groups.len() && old_groups[i].hash@ == hk[order@[q] as int];
                    assert(groups@[i] == old_groups[i]);
                } else {
                    assert(hk[order@[q] as int] == h);
                    assert(groups@[groups.len() - 1].hash@ == h);
                }
            }
        }
        a = b;
    }
    proof {
        assert forall|k: int|
            0 <= k < cand@.len() && cand@.filter(with_hash(hash_of(#[trigger] cand@[k]))).len() >= 2
                implies exists|i: int| 0 <= i < groups.len() && groups@[i].hash@ == hash_of(cand@[k]) by {
            lemma_stable_order_covers(hk, order@, k);
            let q = choose|q: int| 0 <= q < order@.len() && order@[q] == k;
            assert(hk[order@[q] as int] == hash_of(cand@[k]));
        }
    }
    groups
}

} // verus!
