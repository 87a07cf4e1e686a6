//! Normalising a list of tags: trimmed, empty ones dropped, sorted ignoring
//! ASCII case, and only the first of tags that differ only in ASCII case kept.
use vstd::prelude::*;

use crate::models::strings_view;
use crate::order::{lemma_lex_irreflexive, lemma_lex_total, lemma_lex_transitive, lex_lt, chars_less};
use crate::seqs::{first_index, lemma_first_index, lemma_first_index_props, lemma_map_push, lemma_take_all, lemma_take_succ};
use crate::text::{ascii_lower, ascii_lower_chars, chars_equal, chars_of, trim_string, trimmed};

verus! {

/// The key tags are compared and sorted by: the ASCII-lowercased text.
pub open spec fn tag_key(t: Seq<char>) -> Seq<char> {
    ascii_lower(t)
}

/// The trimmed tags that are not empty, in order.
pub open spec fn cleaned_tags(tags: Seq<Seq<char>>) -> Seq<Seq<char>> {
    tags.map_values(|t: Seq<char>| trimmed(t)).filter(|t: Seq<char>| t.len() > 0)
}

/// Tags with the given key.
pub open spec fn has_key(key: Seq<char>) -> spec_fn(Seq<char>) -> bool {
    |x: Seq<char>| tag_key(x) == key
}

/// Position in `c` of the first tag with the given key (the length if none).
pub open spec fn first_with_key(c: Seq<Seq<char>>, key: Seq<char>) -> int {
    first_index(c, has_key(key))
}

/// The keys of a list of tags.
pub open spec fn tag_keys(r: Seq<Seq<char>>) -> Seq<Seq<char>> {
    r.map_values(|x: Seq<char>| tag_key(x))
}

/// `r` is the normalised form of the cleaned tags `c`: strictly increasing by
/// key, each entry the first tag of `c` with its key, and every key of `c` present.
pub open spec fn is_tag_normalization(r: Seq<Seq<char>>, c: Seq<Seq<char>>) -> bool {
    &&& forall|i: int, j: int|
        0 <= i < j < r.len() ==> lex_lt(tag_key(#[trigger] r[i]), tag_key(#[trigger] r[j]))
    &&& forall|j: int|
        0 <= j < r.len() ==> first_with_key(c, tag_key(#[trigger] r[j])) < c.len() && c[first_with_key(
            c,
            tag_key(r[j]),
        )] == r[j]
    &&& forall|i: int| 0 <= i < c.len() ==> tag_keys(r).contains(tag_key(#[trigger] c[i]))
}

/// The first position whose key is not below `key`, in keys strictly increasing.
fn lower_bound(keys: &Vec<Vec<char>>, key: &Vec<char>) -> (pos: usize)
    requires
        forall|i: int, j: int| 0 <= i < j < keys.len() ==> lex_lt(#[trigger] keys@[i]@, #[trigger] keys@[j]@),
    ensures
        pos <= keys.len(),
        forall|i: int| 0 <= i < pos ==> lex_lt(#[trigger] keys@[i]@, key@),
        forall|i: int| pos <= i < keys.len() ==> !lex_lt(#[trigger] keys@[i]@, key@),
{
    let mut lo: usize = 0;
    let mut hi: usize = keys.len();
    while lo < hi
        invariant
            lo <= hi <= keys.len(),
            forall|i: int, j: int| 0 <= i < j < keys.len() ==> lex_lt(#[trigger] keys@[i]@, #[trigger] keys@[j]@),
            forall|i: int| 0 <= i < lo ==> lex_lt(#[trigger] keys@[i]@, key@),
            forall|i: int| hi <= i < keys.len() ==> !lex_lt(#[trigger] keys@[i]@, key@),
        decreases hi - lo,
    {
        let mid = lo + (hi - lo) / 2;
        if chars_less(&keys[mid], key) {
            proof {
                assert forall|i: int| 0 <= i <= mid implies lex_lt(#[trigger] keys@[i]@, key@) by {
                    if i < mid {
                        lemma_lex_transitive(keys@[i]@, keys@[mid as int]@, key@);
                    }
                }
            }
            lo = mid + 1;
        } else {
            proof {
                assert forall|i: int| mid <= i < keys.len() implies !lex_lt(#[trigger] keys@[i]@, key@) by {
                    if i > mid && lex_lt(keys@[i]@, key@) {
                        lemma_lex_transitive(keys@[mid as int]@, keys@[i]@, key@);
                    }
                }
            }
            hi = mid;
        }
    }
    lo
}

proof fn lemma_cleaned_step(tags: Seq<Seq<char>>, i: int)
    requires
        0 <= i < tags.len(),
    ensures
        cleaned_tags(tags.take(i + 1)) == if trimmed(tags[i]).len() > 0 {
            cleaned_tags(tags.take(i)).push(trimmed(tags[i]))
        } else {
            cleaned_tags(tags.take(i))
        },
{
    lemma_take_succ(tags, i);
    lemma_map_push(tags.take(i), tags[i], |t: Seq<char>| trimmed(t));
    tags.take(i).map_values(|t: Seq<char>| trimmed(t)).lemma_filter_push(
        trimmed(tags[i]),
        |t: Seq<char>| t.len() > 0,
    );
}

/// Each of `out` is the first of `c` with its key.
spec fn firsts_ok(out: Seq<Seq<char>>, c: Seq<Seq<char>>) -> bool {
    forall|j: int|
        0 <= j < out.len() ==> first_with_key(c, tag_key(#[trigger] out[j])) < c.len() && c[first_with_key(
            c,
            tag_key(out[j]),
        )] == out[j]
}

/// Every key of `c` is one of `keys`.
spec fn cover_ok(keys: Seq<Seq<char>>, c: Seq<Seq<char>>) -> bool {
    forall|k: int| 0 <= k < c.len() ==> keys.contains(tag_key(#[trigger] c[k]))
}

/// What `normalize_tags` keeps while it goes through the tags: `out` and its
/// keys `keys` form the normalised form of the cleaned tags `c` seen so far.
#[verifier::opaque]
spec fn progress(out: Seq<Seq<char>>, keys: Seq<Seq<char>>, c: Seq<Seq<char>>) -> bool {
    &&& keys.len() == out.len()
    &&& forall|j: int| 0 <= j < keys.len() ==> #[trigger] keys[j] == tag_key(out[j])
    &&& forall|a: int, b: int| 0 <= a < b < keys.len() ==> lex_lt(#[trigger] keys[a], #[trigger] keys[b])
    &&& firsts_ok(out, c)
    &&& cover_ok(keys, c)
}

/// Pushing a tag keeps the first tag of every key already present.
proof fn lemma_first_with_key_push(c: Seq<Seq<char>>, t: Seq<char>, key: Seq<char>)
    ensures
        first_with_key(c, key) < c.len() ==> first_with_key(c.push(t), key) == first_with_key(c, key),
        first_with_key(c, key) == c.len() && tag_key(t) == key ==> first_with_key(c.push(t), key) == c.len(),
{
    let p = has_key(key);
    lemma_first_index_props(c, p);
    let f = first_with_key(c, key);
    let nc = c.push(t);
    if f < c.len() {
        assert forall|j: int| 0 <= j < f implies !p(#[trigger] nc[j]) by {
            assert(nc[j] == c[j]);
        }
        assert(nc[f] == c[f]);
        lemma_first_index(nc, p, f);
    } else if tag_key(t) == key {
        assert forall|j: int| 0 <= j < c.len() implies !p(#[trigger] nc[j]) by {
            assert(nc[j] == c[j]);
        }
        lemma_first_index(nc, p, c.len() as int);
    }
}

/// The character sequences of a list of character vectors.
spec fn char_views(v: Seq<Vec<char>>) -> Seq<Seq<char>> {
    v.map_values(|k: Vec<char>| k@)
}

proof fn lemma_progress_duplicate(out: Seq<Seq<char>>, keys: Seq<Seq<char>>, c: Seq<Seq<char>>, t: Seq<char>, pos: int)
    requires
        progress(out, keys, c),
        0 <= pos < keys.len(),
        keys[pos] == tag_key(t),
    ensures
        progress(out, keys, c.push(t)),
{
    reveal(progress);
    let nc = c.push(t);
    assert forall|j: int| 0 <= j < out.len() implies first_with_key(nc, tag_key(#[trigger] out[j])) < nc.len()
        && nc[first_with_key(nc, tag_key(out[j]))] == out[j] by {
        assert(firsts_ok(out, c));
        assert(first_with_key(c, tag_key(out[j])) < c.len());
        lemma_first_index_props(c, has_key(tag_key(out[j])));
        lemma_first_with_key_push(c, t, tag_key(out[j]));
        assert(nc[first_with_key(c, tag_key(out[j]))] == c[first_with_key(c, tag_key(out[j]))]);
    }
    assert forall|k: int| 0 <= k < nc.len() implies keys.contains(tag_key(#[trigger] nc[k])) by {
        if k < c.len() {
            assert(nc[k] == c[k]);
        } else {
            assert(keys[pos] == tag_key(nc[k]));
        }
    }
}

proof fn lemma_insert_keys(out: Seq<Seq<char>>, keys: Seq<Seq<char>>, t: Seq<char>, pos: int)
    requires
        keys.len() == out.len(),
        forall|j: int| 0 <= j < keys.len() ==> #[trigger] keys[j] == tag_key(out[j]),
        forall|a: int, b: int| 0 <= a < b < keys.len() ==> lex_lt(#[trigger] keys[a], #[trigger] keys[b]),
        0 <= pos <= keys.len(),
        forall|i: int| 0 <= i < pos ==> lex_lt(#[trigger] keys[i], tag_key(t)),
        pos < keys.len() ==> lex_lt(tag_key(t), keys[pos]),
    ensures
        keys.insert(pos, tag_key(t)).len() == out.insert(pos, t).len(),
        forall|j: int| 0 <= j < keys.insert(pos, tag_key(t)).len() ==> #[trigger] keys.insert(pos, tag_key(t))[j] == tag_key(out.insert(pos, t)[j]),
        forall|a: int, b: int| 0 <= a < b < keys.insert(pos, tag_key(t)).len() ==> lex_lt(#[trigger] keys.insert(pos, tag_key(t))[a], #[trigger] keys.insert(pos, tag_key(t))[b]),
{
    let key = tag_key(t);
    let nk = keys.insert(pos, key);
    let no = out.insert(pos, t);
    assert forall|j: int| 0 <= j < nk.len() implies #[trigger] nk[j] == tag_key(no[j]) by {
        if j < pos {
            assert(nk[j] == keys[j]);
            assert(no[j] == out[j]);
        } else if j > pos {
            assert(nk[j] == keys[j - 1]);
            assert(no[j] == out[j - 1]);
        }
    }
    assert forall|a: int, b: int| 0 <= a < b < nk.len() implies lex_lt(#[trigger] nk[a], #[trigger] nk[b]) by {
        if a < pos && b < pos {
            assert(nk[a] == keys[a]);
            assert(nk[b] == keys[b]);
        } else if a > pos && b > pos {
            assert(nk[a] == keys[a - 1]);
            assert(nk[b] == keys[b - 1]);
        } else if a < pos && b == pos {
            assert(nk[a] == keys[a]);
        } else if a < pos && b > pos {
            assert(nk[a] == keys[a]);
            assert(nk[b] == keys[b - 1]);
            if b - 1 > pos {
                lemma_lex_transitive(key, keys[pos], keys[b - 1]);
            }
            lemma_lex_transitive(keys[a], key, keys[b - 1]);
        } else {
            assert(nk[b] == keys[b - 1]);
            if b - 1 > pos {
                lemma_lex_transitive(key, keys[pos], keys[b - 1]);
            }
        }
    }
}

proof fn lemma_insert_firsts(out: Seq<Seq<char>>, c: Seq<Seq<char>>, t: Seq<char>, pos: int)
    requires
        0 <= pos <= out.len(),
        firsts_ok(out, c),
        forall|k: int| 0 <= k < c.len() ==> tag_key(#[trigger] c[k]) != tag_key(t),
    ensures
        firsts_ok(out.insert(pos, t), c.push(t)),
{
    let no = out.insert(pos, t);
    let nc = c.push(t);
    let key = tag_key(t);
    lemma_first_index_props(c, has_key(key));
    if first_with_key(c, key) < c.len() {
        assert(tag_key(c[first_with_key(c, key)]) == key);
    }
    lemma_first_with_key_push(c, t, key);
    assert forall|j: int| 0 <= j < no.len() implies first_with_key(nc, tag_key(#[trigger] no[j])) < nc.len()
        && nc[first_with_key(nc, tag_key(no[j]))] == no[j] by {
        if j == pos {
            assert(no[j] == t);
        } else {
            let oj = if j < pos { j } else { j - 1 };
            assert(no[j] == out[oj]);
            assert(first_with_key(c, tag_key(out[oj])) < c.len());
            lemma_first_index_props(c, has_key(tag_key(out[oj])));
            lemma_first_with_key_push(c, t, tag_key(out[oj]));
            assert(nc[first_with_key(c, tag_key(out[oj]))] == c[first_with_key(c, tag_key(out[oj]))]);
        }
    }
}

proof fn lemma_insert_cover(keys: Seq<Seq<char>>, c: Seq<Seq<char>>, t: Seq<char>, pos: int)
    requires
        0 <= pos <= keys.len(),
        cover_ok(keys, c),
    ensures
        cover_ok(keys.insert(pos, tag_key(t)), c.push(t)),
{
    let nk = keys.insert(pos, tag_key(t));
    let nc = c.push(t);
    assert forall|k: int| 0 <= k < nc.len() implies nk.contains(tag_key(#[trigger] nc[k])) by {
        if k < c.len() {
            assert(nc[k] == c[k]);
            let j = choose|j: int| 0 <= j < keys.len() && keys[j] == tag_key(c[k]);
            if j < pos {
                assert(nk[j] == keys[j]);
            } else {
                assert(nk[j + 1] == keys[j]);
            }
        } else {
            assert(nk[pos] == tag_key(nc[k]));
        }
    }
}

proof fn lemma_progress_insert(out: Seq<Seq<char>>, keys: Seq<Seq<char>>, c: Seq<Seq<char>>, t: Seq<char>, pos: int)
    requires
        progress(out, keys, c),
        0 <= pos <= keys.len(),
        forall|i: int| 0 <= i < pos ==> lex_lt(#[trigger] keys[i], tag_key(t)),
        forall|i: int| pos <= i < keys.len() ==> !lex_lt(#[trigger] keys[i], tag_key(t)),
        pos == keys.len() || keys[pos] != tag_key(t),
    ensures
        progress(out.insert(pos, t), keys.insert(pos, tag_key(t)), c.push(t)),
{
    reveal(progress);
    let key = tag_key(t);
    assert forall|k: int| 0 <= k < c.len() implies tag_key(#[trigger] c[k]) != key by {
        assert(keys.contains(tag_key(c[k])));
        let j = choose|j: int| 0 <= j < keys.len() && keys[j] == tag_key(c[k]);
        if j < pos {
            lemma_lex_irreflexive(key);
        }
    }
    if pos < keys.len() {
        lemma_lex_total(keys[pos], key);
    }
    lemma_insert_keys(out, keys, t, pos);
    lemma_insert_firsts(out, c, t, pos);
    lemma_insert_cover(keys, c, t, pos);
}

/// Adds one non-empty trimmed tag to the normalised tags gathered so far.
fn add_tag(out: &mut Vec<String>, keys: &mut Vec<Vec<char>>, t: String, Ghost(c): Ghost<Seq<Seq<char>>>)
    requires
        progress(strings_view(old(out)@), char_views(old(keys)@), c),
    ensures
        progress(strings_view(final(out)@), char_views(final(keys)@), c.push(t@)),
{
    let ghost ov = strings_view(out@);
    let ghost kv = char_views(keys@);
    proof {
        reveal(progress);
        assert forall|i: int, j: int| 0 <= i < j < keys.len() implies lex_lt(#[trigger] keys@[i]@, #[trigger] keys@[j]@) by {
            assert(kv[i] == keys@[i]@);
            assert(kv[j] == keys@[j]@);
        }
    }
    let key = ascii_lower_chars(t.as_str());
    let pos = lower_bound(keys, &key);
    proof {
        assert forall|i: int| 0 <= i < kv.len() implies #[trigger] kv[i] == keys@[i]@ by {}
    }
    let duplicate = pos < keys.len() && chars_equal(&keys[pos], &key);
    if duplicate {
        proof {
            lemma_progress_duplicate(ov, kv, c, t@, pos as int);
        }
    } else {
        proof {
            lemma_progress_insert(ov, kv, c, t@, pos as int);
        }
        let ghost key_v = key@;
        let ghost t_v = t@;
        keys.insert(pos, key);
        out.insert(pos, t);
        proof {
            assert(char_views(keys@) =~= kv.insert(pos as int, key_v));
            assert(strings_view(out@) =~= ov.insert(pos as int, t_v));
        }
    }
}

/// Tags trimmed, without empty ones, sorted by their ASCII-lowercased text,
/// keeping only the first of tags equal but for ASCII case.
pub fn normalize_tags(tags: &Vec<String>) -> (r: Vec<String>)
    ensures
        is_tag_normalization(strings_view(r@), cleaned_tags(strings_view(tags@))),
{
    let ghost tv = strings_view(tags@);
    let mut out: Vec<String> = Vec::new();
    let mut keys: Vec<Vec<char>> = Vec::new();
    let ghost mut c: Seq<Seq<char>> = Seq::empty();
    let mut i: usize = 0;
    assert(tv.take(0).map_values(|t: Seq<char>| trimmed(t)) =~= Seq::<Seq<char>>::empty());
    assert(cleaned_tags(tv.take(0)) =~= Seq::<Seq<char>>::empty()) by {
        reveal(Seq::filter);
    }
    proof {
        reveal(progress);
        assert(strings_view(out@) =~= Seq::<Seq<char>>::empty());
        assert(char_views(keys@) =~= Seq::<Seq<char>>::empty());
    }
    while i < tags.len()
        invariant
            i <= tags.len(),
            tv == strings_view(tags@),
            c == cleaned_tags(tv.take(i as int)),
            progress(strings_view(out@), char_views(keys@), c),
        decreases tags.len() - i,
    {
        proof {
            lemma_cleaned_step(tv, i as int);
        }
        let t = trim_string(tags[i].as_str());
        let tc = chars_of(t.as_str());
        assert(tv[i as int] == tags@[i as int]@);
        if tc.len() > 0 {
            let ghost before = c;
            proof {
                c = c.push(t@);
            }
            add_tag(&mut out, &mut keys, t, Ghost(before));
        }
        i = i + 1;
    }
    proof {
        lemma_take_all(tv);
        reveal(progress);
        assert(c == cleaned_tags(strings_view(tags@)));
        let ov = strings_view(out@);
        let kv = char_views(keys@);
        assert forall|a: int, b: int| 0 <= a < b < ov.len() implies lex_lt(
            tag_key(#[trigger] ov[a]),
            tag_key(#[trigger] ov[b]),
        ) by {
            assert(kv[a] == tag_key(ov[a]));
            assert(kv[b] == tag_key(ov[b]));
        }
        assert(kv =~= tag_keys(ov));
    }
    out
}

} // verus!
