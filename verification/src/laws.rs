//! Properties of the library that span several operations: what a read gives
//! back after a write, what each root keeps when another one changes, and how
//! the counts and pages of a root fit together.
use vstd::prelude::*;

use crate::library::{
    count_of, has_media, id_taken, in_root, is_new_root, is_next_root_number, item_not_in,
    metadata_lookup, metadata_not_in, metadata_of, metadata_slot, metadata_with,
    outside_root, page, recounted, root_has_path, root_id_for, root_without_id,
    with_metadata_slot, face_not_in, face_not_of, face_of, lemma_count_split, root_has_id,
    item_has_id, face_has_id, item_in, photo_in_root,
};
use crate::duplicates::with_hash;
use crate::models::{blank_metadata, FaceCandidate, LibraryRoot, MediaItem, MediaType, MetadataView};
use crate::scan::{found_count, media_id_for, ScannedMedia};
use crate::seqs::{
    first_index, lemma_map_push, lemma_filter_all, lemma_filter_filter_disjoint, lemma_filter_filter_implied,
    lemma_first_index, lemma_first_index_props,
};
use crate::storage::{media_type_from_label, media_type_label_spec, stored_tags, tag_row_of};
use crate::catalog::{
    definition_has_id, model_table, CLASSIFICATION_GPU_MODEL_ID, CLASSIFICATION_MODEL_ID, CLASSIFICATION_MODEL_URL,
    FACE_GPU_MODEL_ID, FACE_MODEL_ID, FACE_MODEL_URL, FACE_SCANNING_TASK, IMAGE_CLASSIFICATION_TASK,
};
use crate::paths::{
    extension_of_name, final_name, is_image_extension, is_name_path, is_video_extension,
    lemma_extension_kinds_disjoint, name_path_kind,
};
use crate::inference::{is_row_plan, lemma_layout_facts, output_layout, OutputLayout};
use crate::text::{
    ascii_lower, lemma_decimal_injective, lemma_padded_hex_injective, lemma_trimmed_idempotent,
    padded_hex, pow16, trimmed,
};
use crate::tags::{cleaned_tags, first_with_key, has_key, is_tag_normalization, tag_key, tag_keys};
use crate::order::{lemma_lex_irreflexive, lemma_lex_transitive, lex_lt};

verus! {

// ---------------------------------------------------------------------------
// Metadata: reads after writes.
/// The metadata read for an item always carries that item's id.
pub proof fn law_lookup_carries_id(md: Seq<MetadataView>, id: Seq<char>)
    ensures
        metadata_lookup(md, id).media_id == id,
{
    lemma_first_index_props(md, metadata_of(id));
}

/// Reading an item's metadata after writing a record for it gives back the
/// record written.
pub proof fn law_metadata_read_after_write(md: Seq<MetadataView>, id: Seq<char>, e: MetadataView)
    requires
        e.media_id == id,
    ensures
        metadata_lookup(metadata_with(md, id, e), id) == e,
{
    let w = with_metadata_slot(md, id);
    let s = metadata_slot(md, id);
    lemma_first_index_props(md, metadata_of(id));
    let n = w.update(s, e);
    assert forall|j: int| 0 <= j < s implies !metadata_of(id)(#[trigger] n[j]) by {
        assert(n[j] == md[j]);
    }
    lemma_first_index(n, metadata_of(id), s);
}

/// Writing one item's metadata leaves what is read for every other item as it was.
pub proof fn law_metadata_write_keeps_others(
    md: Seq<MetadataView>,
    id: Seq<char>,
    e: MetadataView,
    other: Seq<char>,
)
    requires
        e.media_id == id,
        other != id,
    ensures
        metadata_lookup(metadata_with(md, id, e), other) == metadata_lookup(md, other),
{
    let w = with_metadata_slot(md, id);
    let s = metadata_slot(md, id);
    lemma_first_index_props(md, metadata_of(id));
    lemma_first_index_props(md, metadata_of(other));
    let n = w.update(s, e);
    let f = first_index(md, metadata_of(other));
    assert forall|j: int| 0 <= j < n.len() && j != s && j < md.len() implies #[trigger] n[j]
        == md[j] by {}
    if f < md.len() {
        assert(f != s);
        assert forall|j: int| 0 <= j < f implies !metadata_of(other)(#[trigger] n[j]) by {
            if j != s {
                assert(n[j] == md[j]);
            }
        }
        lemma_first_index(n, metadata_of(other), f);
    } else {
        assert forall|j: int| 0 <= j < n.len() implies !metadata_of(other)(#[trigger] n[j]) by {
            if j != s && j < md.len() {
                assert(n[j] == md[j]);
            }
        }
        lemma_first_index(n, metadata_of(other), n.len() as int);
    }
}

/// After an item's favorite flag is set, its metadata reads back with that flag
/// and with its tags and faces as they were.
pub proof fn law_favorite_read_back(md: Seq<MetadataView>, id: Seq<char>, favorite: bool)
    ensures
        ({
            let e = MetadataView { favorite, ..metadata_lookup(md, id) };
            let got = metadata_lookup(metadata_with(md, id, e), id);
            &&& got.favorite == favorite
            &&& got.tags == metadata_lookup(md, id).tags
            &&& got.face_ids == metadata_lookup(md, id).face_ids
        }),
{
    law_lookup_carries_id(md, id);
    let e = MetadataView { favorite, ..metadata_lookup(md, id) };
    law_metadata_read_after_write(md, id, e);
}

/// After an item's tags are set, its metadata reads back with those tags and
/// with its favorite flag and faces as they were.
pub proof fn law_tags_read_back(md: Seq<MetadataView>, id: Seq<char>, tags: Seq<Seq<char>>)
    ensures
        ({
            let e = MetadataView { tags, ..metadata_lookup(md, id) };
            let got = metadata_lookup(metadata_with(md, id, e), id);
            &&& got.tags == tags
            &&& got.favorite == metadata_lookup(md, id).favorite
            &&& got.face_ids == metadata_lookup(md, id).face_ids
        }),
{
    law_lookup_carries_id(md, id);
    let e = MetadataView { tags, ..metadata_lookup(md, id) };
    law_metadata_read_after_write(md, id, e);
}

// ---------------------------------------------------------------------------
// Roots are independent sources.
/// Rescanning a root replaces exactly its items: afterwards the root holds the
/// items of the scan, and any other root holds what it held before.
pub proof fn law_rescan_touches_one_root(
    media: Seq<MediaItem>,
    items: Seq<MediaItem>,
    scanned: Seq<char>,
    other: Seq<char>,
)
    requires
        forall|i: int| 0 <= i < items.len() ==> (#[trigger] items[i]).root_id@ == scanned,
        other != scanned,
    ensures
        (media.filter(outside_root(scanned)) + items).filter(in_root(scanned)) == items,
        (media.filter(outside_root(scanned)) + items).filter(in_root(other)) == media.filter(
            in_root(other),
        ),
{
    let kept = media.filter(outside_root(scanned));
    Seq::filter_distributes_over_add(kept, items, in_root(scanned));
    Seq::filter_distributes_over_add(kept, items, in_root(other));
    lemma_filter_filter_disjoint(media, outside_root(scanned), in_root(scanned));
    lemma_filter_all(items, in_root(scanned));
    lemma_filter_filter_implied(media, outside_root(scanned), in_root(other));
    crate::seqs::lemma_filter_none(items, in_root(other));
    assert(Seq::<MediaItem>::empty() + items =~= items);
    assert(media.filter(in_root(other)) + Seq::<MediaItem>::empty() =~= media.filter(
        in_root(other),
    ));
}

/// Removing a root leaves no root with its id and no item under it, and every
/// other root is still there with its items.
pub proof fn law_removed_root_is_gone(
    roots: Seq<LibraryRoot>,
    media: Seq<MediaItem>,
    removed: Seq<char>,
    other: Seq<char>,
)
    requires
        other != removed,
    ensures
        !id_taken(roots.filter(root_without_id(removed)), removed),
        id_taken(roots.filter(root_without_id(removed)), other) == id_taken(roots, other),
        media.filter(outside_root(removed)).filter(in_root(removed)).len() == 0,
        media.filter(outside_root(removed)).filter(in_root(other)) == media.filter(
            in_root(other),
        ),
{
    let kept = roots.filter(root_without_id(removed));
    if id_taken(kept, removed) {
        let j = choose|j: int| 0 <= j < kept.len() && #[trigger] kept[j].id@ == removed;
        roots.lemma_filter_pred(root_without_id(removed), j);
    }
    if id_taken(kept, other) {
        let j = choose|j: int| 0 <= j < kept.len() && #[trigger] kept[j].id@ == other;
        assert(kept.contains(kept[j]));
        roots.lemma_filter_contains_rev(root_without_id(removed), kept[j]);
        let k = choose|k: int| 0 <= k < roots.len() && roots[k] == kept[j];
        assert(roots[k].id@ == other);
    }
    if id_taken(roots, other) {
        let j = choose|j: int| 0 <= j < roots.len() && #[trigger] roots[j].id@ == other;
        roots.lemma_filter_contains(root_without_id(removed), j);
        let k = choose|k: int| 0 <= k < kept.len() && kept[k] == roots[j];
        assert(kept[k].id@ == other);
    }
    lemma_filter_filter_disjoint(media, outside_root(removed), in_root(removed));
    lemma_filter_filter_implied(media, outside_root(removed), in_root(other));
}

/// Deleting items leaves nothing of them: no item with a deleted id, a blank
/// record when its metadata is read, and no face of it.
pub proof fn law_deleted_items_leave_nothing(
    media: Seq<MediaItem>,
    md: Seq<MetadataView>,
    faces: Seq<FaceCandidate>,
    ids: Seq<Seq<char>>,
    id: Seq<char>,
)
    requires
        ids.contains(id),
    ensures
        !has_media(media.filter(item_not_in(ids)), id),
        metadata_lookup(md.filter(metadata_not_in(ids)), id) == blank_metadata(id),
        faces.filter(face_not_in(ids)).filter(face_of(id)).len() == 0,
{
    let kept = media.filter(item_not_in(ids));
    if has_media(kept, id) {
        let i = choose|i: int| 0 <= i < kept.len() && #[trigger] kept[i].id@ == id;
        media.lemma_filter_pred(item_not_in(ids), i);
    }
    let left = md.filter(metadata_not_in(ids));
    assert forall|j: int| 0 <= j < left.len() implies !metadata_of(id)(#[trigger] left[j]) by {
        md.lemma_filter_pred(metadata_not_in(ids), j);
    }
    lemma_first_index(left, metadata_of(id), left.len() as int);
    lemma_filter_filter_disjoint(faces, face_not_in(ids), face_of(id));
}

// ---------------------------------------------------------------------------
// Counts and pages.
/// Each item under a root is a photo or a video, and never both.
proof fn lemma_count_by_type(media: Seq<MediaItem>, root_id: Seq<char>)
    ensures
        count_of(media, root_id, MediaType::Photo) + count_of(media, root_id, MediaType::Video)
            == media.filter(in_root(root_id)).len(),
    decreases media.len(),
{
    reveal(Seq::filter);
    if media.len() > 0 {
        lemma_count_by_type(media.drop_last(), root_id);
    }
}

/// After a recount, each root's counts are its photos and its videos, and its
/// total is their sum and the number of its items.
pub proof fn law_recount_totals(roots: Seq<LibraryRoot>, media: Seq<MediaItem>, i: int)
    requires
        0 <= i < roots.len(),
        media.len() <= u64::MAX,
    ensures
        ({
            let r = recounted(roots, media)[i];
            &&& r.id == roots[i].id
            &&& r.photo_count == count_of(media, roots[i].id@, MediaType::Photo)
            &&& r.video_count == count_of(media, roots[i].id@, MediaType::Video)
            &&& r.media_count == r.photo_count + r.video_count
            &&& r.media_count == media.filter(in_root(roots[i].id@)).len()
        }),
{
    let id = roots[i].id@;
    lemma_count_split(media, id);
    lemma_count_by_type(media, id);
}

/// A page at least as long as the whole list, from the start, is the whole list.
pub proof fn law_page_everything<A>(s: Seq<A>, limit: int)
    requires
        limit >= s.len(),
    ensures
        page(s, 0, limit) == s,
{
    assert(s.subrange(0, s.len() as int) =~= s);
}

/// Two consecutive pages together are the page that spans both.
pub proof fn law_pages_concatenate<A>(s: Seq<A>, offset: int, first: int, second: int)
    requires
        offset >= 0,
        first >= 0,
        second >= 0,
    ensures
        page(s, offset, first) + page(s, offset + first, second) == page(
            s,
            offset,
            first + second,
        ),
{
    assert(page(s, offset, first) + page(s, offset + first, second) =~= page(
        s,
        offset,
        first + second,
    ));
}

/// After a root is rescanned, its first page as long as the scan reads back
/// the scanned items.
pub proof fn law_rescan_read_back(
    media: Seq<MediaItem>,
    items: Seq<MediaItem>,
    scanned: Seq<char>,
    limit: int,
)
    requires
        forall|i: int| 0 <= i < items.len() ==> (#[trigger] items[i]).root_id@ == scanned,
        limit >= items.len(),
    ensures
        page((media.filter(outside_root(scanned)) + items).filter(in_root(scanned)), 0, limit)
            == items,
{
    let kept = media.filter(outside_root(scanned));
    Seq::filter_distributes_over_add(kept, items, in_root(scanned));
    lemma_filter_filter_disjoint(media, outside_root(scanned), in_root(scanned));
    lemma_filter_all(items, in_root(scanned));
    assert(Seq::<MediaItem>::empty() + items =~= items);
    law_page_everything(items, limit);
}

/// The photos and the videos a scan found are all it found.
pub proof fn law_scan_counts_add_up(found: Seq<ScannedMedia>)
    ensures
        found_count(found, MediaType::Photo) + found_count(found, MediaType::Video) == found.len(),
    decreases found.len(),
{
    reveal(Seq::filter);
    if found.len() > 0 {
        law_scan_counts_add_up(found.drop_last());
    }
}

// ---------------------------------------------------------------------------
// Ids.
/// Different item numbers give different item ids within a root.
pub proof fn law_media_ids_distinct(root_id: Seq<char>, a: nat, b: nat)
    requires
        a != b,
    ensures
        media_id_for(root_id, a) != media_id_for(root_id, b),
{
    let n = (root_id + "-media-"@).len() as int;
    if media_id_for(root_id, a) == media_id_for(root_id, b) {
        assert(media_id_for(root_id, a).skip(n) =~= crate::text::decimal(a));
        assert(media_id_for(root_id, b).skip(n) =~= crate::text::decimal(b));
        lemma_decimal_injective(a, b);
    }
}

/// Different root numbers give different root ids.
pub proof fn law_root_ids_distinct(a: nat, b: nat)
    requires
        a != b,
    ensures
        root_id_for(a) != root_id_for(b),
{
    let n = "root-"@.len() as int;
    if root_id_for(a) == root_id_for(b) {
        assert(root_id_for(a).skip(n) =~= crate::text::decimal(a));
        assert(root_id_for(b).skip(n) =~= crate::text::decimal(b));
        lemma_decimal_injective(a, b);
    }
}

/// The roots have pairwise different ids.
pub open spec fn root_ids_distinct(roots: Seq<LibraryRoot>) -> bool {
    forall|i: int, j: int| 0 <= i < j < roots.len() ==> #[trigger] roots[i].id@ != #[trigger] roots[j].id@
}

/// A root that `add_root` creates has an id no existing root has, so root ids
/// stay distinct.
pub proof fn law_new_root_id_is_fresh(root: LibraryRoot, roots: Seq<LibraryRoot>, path: Seq<char>)
    requires
        is_new_root(root, roots, path),
    ensures
        !id_taken(roots, root.id@),
        root_ids_distinct(roots) ==> root_ids_distinct(roots.push(root)),
{
    let n = choose|n: nat| is_next_root_number(roots, n) && root.id@ == root_id_for(n);
    if root_ids_distinct(roots) {
        let all = roots.push(root);
        assert forall|i: int, j: int| 0 <= i < j < all.len() implies #[trigger] all[i].id@
            != #[trigger] all[j].id@ by {
            if j == roots.len() {
                assert(all[i] == roots[i]);
                if all[i].id@ == all[j].id@ {
                    assert(id_taken(roots, root.id@));
                }
            } else {
                assert(all[i] == roots[i] && all[j] == roots[j]);
            }
        }
    }
}

/// Adding a folder a second time finds the root the first addition made.
pub proof fn law_adding_again_finds_root(roots: Seq<LibraryRoot>, root: LibraryRoot, path: Seq<char>)
    requires
        first_index(roots, root_has_path(path)) == roots.len(),
        is_new_root(root, roots, path),
    ensures
        first_index(roots.push(root), root_has_path(path)) == roots.len(),
        roots.push(root)[roots.len() as int] == root,
{
    lemma_first_index_props(roots, root_has_path(path));
    let all = roots.push(root);
    assert forall|j: int| 0 <= j < roots.len() implies !root_has_path(path)(#[trigger] all[j]) by {
        assert(all[j] == roots[j]);
    }
    lemma_first_index(all, root_has_path(path), roots.len() as int);
}

// ---------------------------------------------------------------------------
// Storage.
/// A kind stored as its label reads back as the same kind.
pub proof fn law_media_type_label_round_trip(t: MediaType)
    ensures
        media_type_from_label(media_type_label_spec(t)) == t,
{
    reveal_strlit("photo");
    reveal_strlit("video");
    if t == MediaType::Photo {
        assert(ascii_lower("photo"@)[0] != ascii_lower("video"@)[0]);
    } else {
        assert(ascii_lower("video"@) =~= ascii_lower("video"@));
    }
}

// ---------------------------------------------------------------------------
// Tags.
/// Keys strictly increasing in the lexicographic order.
pub open spec fn strictly_increasing(k: Seq<Seq<char>>) -> bool {
    forall|i: int, j: int| 0 <= i < j < k.len() ==> lex_lt(#[trigger] k[i], #[trigger] k[j])
}

/// Two strictly increasing sequences with the same elements are equal.
proof fn lemma_increasing_same_elements(a: Seq<Seq<char>>, b: Seq<Seq<char>>)
    requires
        strictly_increasing(a),
        strictly_increasing(b),
        forall|i: int| 0 <= i < a.len() ==> b.contains(#[trigger] a[i]),
        forall|i: int| 0 <= i < b.len() ==> a.contains(#[trigger] b[i]),
    ensures
        a == b,
    decreases a.len(),
{
    if a.len() == 0 {
        if b.len() > 0 {
            assert(a.contains(b[0]));
        }
        assert(a =~= b);
    } else {
        assert(b.contains(a[0]));
        let j = choose|j: int| 0 <= j < b.len() && b[j] == a[0];
        assert(a.contains(b[0]));
        let k = choose|k: int| 0 <= k < a.len() && a[k] == b[0];
        if j > 0 {
            assert(lex_lt(b[0], b[j]));
            if k == 0 {
                lemma_lex_irreflexive(b[0]);
            } else {
                assert(lex_lt(a[0], a[k]));
                lemma_lex_transitive(a[0], a[k], b[j]);
                lemma_lex_irreflexive(a[0]);
            }
        }
        assert(a[0] == b[0]);
        let a1 = a.drop_first();
        let b1 = b.drop_first();
        assert forall|i: int| 0 <= i < a1.len() implies b1.contains(#[trigger] a1[i]) by {
            assert(a1[i] == a[i + 1]);
            assert(lex_lt(a[0], a[i + 1]));
            assert(b.contains(a[i + 1]));
            let m = choose|m: int| 0 <= m < b.len() && b[m] == a[i + 1];
            if m == 0 {
                lemma_lex_irreflexive(a[0]);
            }
            assert(b1[m - 1] == b[m]);
        }
        assert forall|i: int| 0 <= i < b1.len() implies a1.contains(#[trigger] b1[i]) by {
            assert(b1[i] == b[i + 1]);
            assert(lex_lt(b[0], b[i + 1]));
            assert(a.contains(b[i + 1]));
            let m = choose|m: int| 0 <= m < a.len() && a[m] == b[i + 1];
            if m == 0 {
                lemma_lex_irreflexive(b[0]);
            }
            assert(a1[m - 1] == a[m]);
        }
        assert forall|i: int, j: int| 0 <= i < j < a1.len() implies lex_lt(
            #[trigger] a1[i],
            #[trigger] a1[j],
        ) by {
            assert(a1[i] == a[i + 1] && a1[j] == a[j + 1]);
        }
        assert forall|i: int, j: int| 0 <= i < j < b1.len() implies lex_lt(
            #[trigger] b1[i],
            #[trigger] b1[j],
        ) by {
            assert(b1[i] == b[i + 1] && b1[j] == b[j + 1]);
        }
        lemma_increasing_same_elements(a1, b1);
        assert(a =~= seq![a[0]] + a1);
        assert(b =~= seq![b[0]] + b1);
    }
}

/// The keys of a normalisation are the keys of what it normalised.
proof fn lemma_normalization_keys(r: Seq<Seq<char>>, c: Seq<Seq<char>>)
    requires
        is_tag_normalization(r, c),
    ensures
        strictly_increasing(tag_keys(r)),
        forall|j: int|
            0 <= j < r.len() ==> 0 <= first_with_key(c, tag_key(#[trigger] r[j])) < c.len()
                && tag_key(c[first_with_key(c, tag_key(r[j]))]) == tag_key(r[j]),
{
    assert forall|i: int, j: int| 0 <= i < j < tag_keys(r).len() implies lex_lt(
        #[trigger] tag_keys(r)[i],
        #[trigger] tag_keys(r)[j],
    ) by {
        assert(lex_lt(tag_key(r[i]), tag_key(r[j])));
    }
    assert forall|j: int| 0 <= j < r.len() implies 0 <= first_with_key(c, tag_key(#[trigger] r[j]))
        < c.len() && tag_key(c[first_with_key(c, tag_key(r[j]))]) == tag_key(r[j]) by {
        lemma_first_index_props(c, has_key(tag_key(r[j])));
    }
}

/// A list of tags has only one normalised form: two lists that both normalise
/// the same tags are the same list.
pub proof fn law_tag_normalization_unique(r1: Seq<Seq<char>>, r2: Seq<Seq<char>>, c: Seq<Seq<char>>)
    requires
        is_tag_normalization(r1, c),
        is_tag_normalization(r2, c),
    ensures
        r1 == r2,
{
    lemma_normalization_keys(r1, c);
    lemma_normalization_keys(r2, c);
    let k1 = tag_keys(r1);
    let k2 = tag_keys(r2);
    assert forall|i: int| 0 <= i < k1.len() implies k2.contains(#[trigger] k1[i]) by {
        assert(r1[i] == r1[i]);
        let f = first_with_key(c, tag_key(r1[i]));
        assert(tag_keys(r2).contains(tag_key(c[f])));
    }
    assert forall|i: int| 0 <= i < k2.len() implies k1.contains(#[trigger] k2[i]) by {
        assert(r2[i] == r2[i]);
        let f = first_with_key(c, tag_key(r2[i]));
        assert(tag_keys(r1).contains(tag_key(c[f])));
    }
    lemma_increasing_same_elements(k1, k2);
    assert forall|j: int| 0 <= j < r1.len() implies #[trigger] r1[j] == r2[j] by {
        assert(k1[j] == k2[j]);
        assert(c[first_with_key(c, tag_key(r1[j]))] == r1[j]);
        assert(c[first_with_key(c, tag_key(r2[j]))] == r2[j]);
    }
    assert(r1 =~= r2);
}

/// Normalising tags that are already normalised gives them back unchanged:
/// setting an item's tags to what it reads back changes nothing.
pub proof fn law_tags_normalized_idempotent(r: Seq<Seq<char>>, tags: Seq<Seq<char>>)
    requires
        is_tag_normalization(r, cleaned_tags(tags)),
    ensures
        cleaned_tags(r) == r,
        is_tag_normalization(r, cleaned_tags(r)),
{
    let c = cleaned_tags(tags);
    let trimmed_all = tags.map_values(|t: Seq<char>| trimmed(t));
    let nonempty = |t: Seq<char>| t.len() > 0;
    assert forall|j: int| 0 <= j < r.len() implies trimmed(#[trigger] r[j]) == r[j] && r[j].len()
        > 0 by {
        let f = first_with_key(c, tag_key(r[j]));
        lemma_first_index_props(c, has_key(tag_key(r[j])));
        assert(c[f] == r[j]);
        trimmed_all.lemma_filter_pred(nonempty, f);
        assert(c.contains(c[f]));
        trimmed_all.lemma_filter_contains_rev(nonempty, c[f]);
        let i = choose|i: int| 0 <= i < trimmed_all.len() && trimmed_all[i] == c[f];
        lemma_trimmed_idempotent(tags[i]);
    }
    let mapped = r.map_values(|t: Seq<char>| trimmed(t));
    assert(mapped =~= r);
    lemma_filter_all(r, nonempty);
    assert(cleaned_tags(r) == r);
    assert forall|j: int| 0 <= j < r.len() implies first_with_key(r, tag_key(#[trigger] r[j]))
        < r.len() && r[first_with_key(r, tag_key(r[j]))] == r[j] by {
        assert forall|i: int| 0 <= i < j implies !has_key(tag_key(r[j]))(#[trigger] r[i]) by {
            assert(lex_lt(tag_key(r[i]), tag_key(r[j])));
            if tag_key(r[i]) == tag_key(r[j]) {
                lemma_lex_irreflexive(tag_key(r[j]));
            }
        }
        lemma_first_index(r, has_key(tag_key(r[j])), j);
    }
    assert forall|i: int| 0 <= i < r.len() implies tag_keys(r).contains(tag_key(#[trigger] r[i])) by {
        assert(tag_keys(r)[i] == tag_key(r[i]));
    }
}

/// Different cache keys give different cached inference file names.
pub proof fn law_inference_names_distinct(a: u64, b: u64)
    requires
        a != b,
    ensures
        padded_hex(a as nat, 16) + ".png"@ != padded_hex(b as nat, 16) + ".png"@,
{
    assert(pow16(16) == 0x1_0000_0000_0000_0000) by {
        reveal_with_fuel(pow16, 17);
    }
    let x = padded_hex(a as nat, 16) + ".png"@;
    let y = padded_hex(b as nat, 16) + ".png"@;
    if x == y {
        crate::text::lemma_padded_hex_len(a as nat, 16);
        crate::text::lemma_padded_hex_len(b as nat, 16);
        assert(x.take(16) =~= padded_hex(a as nat, 16));
        assert(y.take(16) =~= padded_hex(b as nat, 16));
        lemma_padded_hex_injective(a as nat, b as nat, 16);
    }
}

/// Every position a detector output row names is one of the output's values,
/// so reading a row never goes past the end of the values.
pub proof fn law_output_rows_in_bounds(rows: Seq<Seq<usize>>, shape: Seq<i64>, values_len: nat)
    requires
        is_row_plan(rows, output_layout(shape, values_len), values_len),
    ensures
        forall|r: int, j: int| 0 <= r < rows.len() && 0 <= j < rows[r].len() ==> #[trigger] rows[r][j] < values_len,
{
    lemma_layout_facts(shape, values_len);
    match output_layout(shape, values_len) {
        OutputLayout::Empty => {},
        OutputLayout::Chunks { width } => {
            assert forall|r: int, j: int| 0 <= r < rows.len() && 0 <= j < rows[r].len() implies #[trigger] rows[r][j]
                < values_len by {
                assert(rows[r][j] == r * width + j);
                if (r + 1) * width <= values_len {
                    assert((r + 1) * width == r * width + width) by (nonlinear_arith);
                }
            }
        },
        OutputLayout::Columns { attributes, candidates } => {
            assert forall|r: int, j: int| 0 <= r < rows.len() && 0 <= j < rows[r].len() implies #[trigger] rows[r][j]
                < values_len by {
                assert(rows[r][j] == j * candidates + r);
                assert(j * candidates + r < attributes * candidates) by (nonlinear_arith)
                    requires
                        0 <= j < attributes,
                        0 <= r < candidates,
                ;
            }
        },
    }
}

/// For a path whose final name every platform reads alike, the kind
/// `media_type_for_path` gives agrees with `is_supported_image` and
/// `is_supported_video`: a photo exactly when it names a supported image, a
/// video exactly when it names a supported video, none exactly when neither.
pub proof fn law_path_kind_agrees(path: Seq<char>)
    requires
        is_name_path(path),
    ensures
        ({
            let e = extension_of_name(final_name(path));
            let image = e matches Some(x) && is_image_extension(x);
            let video = e matches Some(x) && is_video_extension(x);
            &&& (name_path_kind(path) == Some(MediaType::Photo) <==> image)
            &&& (name_path_kind(path) == Some(MediaType::Video) <==> video)
            &&& (name_path_kind(path) is None <==> !image && !video)
        }),
{
    if let Some(x) = extension_of_name(final_name(path)) {
        lemma_extension_kinds_disjoint(x);
    }
}

/// After items are deleted, each root's counts are its photos and its videos
/// among the items left, and its total is their sum and the number of its items
/// left. The bound is what `delete_media_items` ensures of the items left.
pub proof fn law_counts_after_delete(
    roots: Seq<LibraryRoot>,
    media: Seq<MediaItem>,
    ids: Seq<Seq<char>>,
    i: int,
)
    requires
        0 <= i < roots.len(),
        media.filter(item_not_in(ids)).len() <= usize::MAX,
    ensures
        ({
            let kept = media.filter(item_not_in(ids));
            let r = recounted(roots, kept)[i];
            &&& r.id == roots[i].id
            &&& r.photo_count == count_of(kept, roots[i].id@, MediaType::Photo)
            &&& r.video_count == count_of(kept, roots[i].id@, MediaType::Video)
            &&& r.media_count == r.photo_count + r.video_count
            &&& r.media_count == kept.filter(in_root(roots[i].id@)).len()
        }),
{
    law_recount_totals(roots, media.filter(item_not_in(ids)), i);
}

/// A page holds no more than the limit asked for and no more than the list.
pub proof fn law_page_bounds<A>(s: Seq<A>, offset: int, limit: int)
    requires
        offset >= 0,
        limit >= 0,
    ensures
        page(s, offset, limit).len() <= limit,
        page(s, offset, limit).len() <= s.len(),
{
}

/// In an empty library the first new root is `root-1`, and the next one, for
/// another folder, is `root-2`.
pub proof fn law_first_root_ids(
    first: LibraryRoot,
    second: LibraryRoot,
    first_path: Seq<char>,
    second_path: Seq<char>,
)
    requires
        is_new_root(first, Seq::empty(), first_path),
        is_new_root(second, seq![first], second_path),
    ensures
        first.id@ == "root-1"@,
        second.id@ == "root-2"@,
{
    let none = Seq::<LibraryRoot>::empty();
    let one = seq![first];
    let n1 = choose|n: nat| is_next_root_number(none, n) && first.id@ == root_id_for(n);
    if n1 > 1 {
        assert(id_taken(none, root_id_for(1)));
    }
    assert(n1 == 1);
    let n2 = choose|n: nat| is_next_root_number(one, n) && second.id@ == root_id_for(n);
    if n2 == 1 {
        assert(one[0].id@ == root_id_for(1));
        assert(id_taken(one, root_id_for(1)));
    }
    if n2 > 2 {
        assert(id_taken(one, root_id_for(2)));
        law_root_ids_distinct(1, 2);
    }
    assert(n2 == 2);
    reveal_strlit("root-1");
    reveal_strlit("root-2");
    reveal_strlit("root-");
    assert(crate::text::decimal(1) =~= seq!['1']);
    assert(crate::text::decimal(2) =~= seq!['2']);
    assert(root_id_for(1) =~= "root-1"@);
    assert(root_id_for(2) =~= "root-2"@);
}

// ---------------------------------------------------------------------------
// What the operations mean, character for character.
/// Adding a folder gives back an existing root only when that root's path is
/// the folder's path exactly; when no root has exactly that path, a new root is
/// added.
pub proof fn law_add_root_matches_exact_path(roots: Seq<LibraryRoot>, path: Seq<char>)
    ensures
        first_index(roots, root_has_path(path)) < roots.len() ==> roots[first_index(
            roots,
            root_has_path(path),
        )].path@ == path,
        (forall|j: int| 0 <= j < roots.len() ==> roots[j].path@ != path) ==> first_index(
            roots,
            root_has_path(path),
        ) == roots.len(),
        (exists|j: int| 0 <= j < roots.len() && roots[j].path@ == path) ==> first_index(
            roots,
            root_has_path(path),
        ) < roots.len(),
{
    lemma_first_index_props(roots, root_has_path(path));
    if exists|j: int| 0 <= j < roots.len() && roots[j].path@ == path {
        let j = choose|j: int| 0 <= j < roots.len() && roots[j].path@ == path;
        assert(root_has_path(path)(roots[j]));
    }
}

/// `lex_lt`, by which tags, paths and hashes are sorted, is the order of
/// `String`: `a` is below `b` when it is a proper prefix of `b`, or when at the
/// first position where they differ `a` has the smaller character.
pub proof fn law_lex_is_string_order(a: Seq<char>, b: Seq<char>)
    ensures
        lex_lt(a, b) <==> ((a.len() < b.len() && b.take(a.len() as int) == a) || exists|k: int|
            0 <= k < a.len() && k < b.len() && a.take(k) == b.take(k) && a[k] < b[k]),
    decreases a.len(),
{
    if a.len() == 0 {
        assert(b.take(0) =~= a);
    } else if b.len() == 0 {
    } else if a[0] < b[0] {
        assert(a.take(0) =~= b.take(0));
    } else if a[0] != b[0] {
        if a.len() < b.len() && b.take(a.len() as int) == a {
            assert(b.take(a.len() as int)[0] == b[0]);
        }
        if exists|k: int| 0 <= k < a.len() && k < b.len() && a.take(k) == b.take(k) && a[k] < b[k] {
            let k = choose|k: int| 0 <= k < a.len() && k < b.len() && a.take(k) == b.take(k) && a[k] < b[k];
            if k > 0 {
                assert(a.take(k)[0] == a[0] && b.take(k)[0] == b[0]);
            }
        }
    } else {
        let a1 = a.drop_first();
        let b1 = b.drop_first();
        law_lex_is_string_order(a1, b1);
        // The prefix case moves one position along.
        if a.len() < b.len() && b.take(a.len() as int) == a {
            assert(b1.take(a1.len() as int) =~= a1) by {
                assert forall|i: int| 0 <= i < a1.len() implies #[trigger] b1.take(a1.len() as int)[i] == a1[i] by {
                    assert(b.take(a.len() as int)[i + 1] == a[i + 1]);
                }
            }
        }
        if a1.len() < b1.len() && b1.take(a1.len() as int) == a1 {
            assert(b.take(a.len() as int) =~= a) by {
                assert forall|i: int| 0 <= i < a.len() implies #[trigger] b.take(a.len() as int)[i] == a[i] by {
                    if i > 0 {
                        assert(b1.take(a1.len() as int)[i - 1] == a1[i - 1]);
                    }
                }
            }
        }
        // So does the first difference.
        if exists|k: int| 0 <= k < a.len() && k < b.len() && a.take(k) == b.take(k) && a[k] < b[k] {
            let k = choose|k: int| 0 <= k < a.len() && k < b.len() && a.take(k) == b.take(k) && a[k] < b[k];
            assert(k > 0);
            assert(a1.take(k - 1) =~= b1.take(k - 1)) by {
                assert forall|i: int| 0 <= i < k - 1 implies #[trigger] a1.take(k - 1)[i] == b1.take(k - 1)[i] by {
                    assert(a.take(k)[i + 1] == b.take(k)[i + 1]);
                }
            }
            assert(a1[k - 1] == a[k] && b1[k - 1] == b[k]);
        }
        if exists|k: int| 0 <= k < a1.len() && k < b1.len() && a1.take(k) == b1.take(k) && a1[k] < b1[k] {
            let k = choose|k: int| 0 <= k < a1.len() && k < b1.len() && a1.take(k) == b1.take(k) && a1[k] < b1[k];
            assert(a.take(k + 1) =~= b.take(k + 1)) by {
                assert forall|i: int| 0 <= i < k + 1 implies #[trigger] a.take(k + 1)[i] == b.take(k + 1)[i] by {
                    if i > 0 {
                        assert(a1.take(k)[i - 1] == b1.take(k)[i - 1]);
                    }
                }
            }
            assert(a[k + 1] == a1[k] && b[k + 1] == b1[k]);
        }
    }
}

/// A word sorts before every longer word that begins with it.
pub proof fn law_proper_prefix_sorts_first(a: Seq<char>, b: Seq<char>)
    requires
        b.len() > 0,
    ensures
        lex_lt(a, a + b),
        !lex_lt(a + b, a),
{
    law_lex_is_string_order(a, a + b);
    assert((a + b).take(a.len() as int) =~= a);
    law_lex_is_string_order(a + b, a);
    if exists|k: int| 0 <= k < (a + b).len() && k < a.len() && (a + b).take(k) == a.take(k) && (a
        + b)[k] < a[k] {
        let k = choose|k: int| 0 <= k < (a + b).len() && k < a.len() && (a + b).take(k) == a.take(k)
            && (a + b)[k] < a[k];
        assert((a + b)[k] == a[k]);
    }
}

/// The tags loaded for an item are the tag rows of exactly that item's id, in
/// row order: a row of any other id adds nothing to them.
pub proof fn law_loaded_tags_by_exact_id(
    rows: Seq<(String, String)>,
    media_id: Seq<char>,
    row: (String, String),
)
    ensures
        stored_tags(Seq::empty(), media_id).len() == 0,
        stored_tags(rows.push(row), media_id) == if row.0@ == media_id {
            stored_tags(rows, media_id).push(row.1@)
        } else {
            stored_tags(rows, media_id)
        },
{
    reveal(Seq::filter);
    assert(Seq::<(String, String)>::empty().filter(tag_row_of(media_id)) =~= Seq::empty());
    rows.lemma_filter_push(row, tag_row_of(media_id));
    lemma_map_push(rows.filter(tag_row_of(media_id)), row, |r: (String, String)| r.1@);
}

/// Replacing one item's faces leaves the faces of every other item as they
/// were (with any detected face of that other item after them), and leaves the
/// item itself with exactly the detected faces of it.
pub proof fn law_replace_faces_keeps_other_items(
    faces: Seq<FaceCandidate>,
    detected: Seq<FaceCandidate>,
    media_id: Seq<char>,
    other: Seq<char>,
)
    requires
        other != media_id,
    ensures
        (faces.filter(face_not_of(media_id)) + detected).filter(face_of(other)) == faces.filter(
            face_of(other),
        ) + detected.filter(face_of(other)),
        (faces.filter(face_not_of(media_id)) + detected).filter(face_of(media_id))
            == detected.filter(face_of(media_id)),
        forall|f: FaceCandidate| #[trigger] face_of(other)(f) <==> f.media_id@ == other,
{
    let kept = faces.filter(face_not_of(media_id));
    Seq::filter_distributes_over_add(kept, detected, face_of(other));
    Seq::filter_distributes_over_add(kept, detected, face_of(media_id));
    assert forall|f: FaceCandidate| #[trigger] face_of(other)(f) implies face_not_of(media_id)(f) by {}
    lemma_filter_filter_implied(faces, face_not_of(media_id), face_of(other));
    assert forall|f: FaceCandidate| #[trigger] face_of(media_id)(f) implies !face_not_of(media_id)(f) by {}
    lemma_filter_filter_disjoint(faces, face_not_of(media_id), face_of(media_id));
    assert(Seq::<FaceCandidate>::empty() + detected.filter(face_of(media_id)) =~= detected.filter(
        face_of(media_id),
    ));
}

/// The analysis models download from the address of their task: every face
/// scanning model from the face detector's address, every image classification
/// model from the classifier's; and each id names the task it belongs to.
pub proof fn law_model_urls_follow_task()
    ensures
        forall|i: int|
            0 <= i < model_table().len() ==> {
                let d = #[trigger] model_table()[i];
                &&& d.task@ == FACE_SCANNING_TASK@ ==> d.download_url@ == FACE_MODEL_URL@
                &&& d.task@ == IMAGE_CLASSIFICATION_TASK@ ==> d.download_url@
                    == CLASSIFICATION_MODEL_URL@
                &&& (d.id@ == FACE_MODEL_ID@ || d.id@ == FACE_GPU_MODEL_ID@) ==> d.task@
                    == FACE_SCANNING_TASK@
                &&& (d.id@ == CLASSIFICATION_MODEL_ID@ || d.id@ == CLASSIFICATION_GPU_MODEL_ID@)
                    ==> d.task@ == IMAGE_CLASSIFICATION_TASK@
            },
{
    reveal_strlit("Face scanning");
    reveal_strlit("Image classification");
    reveal_strlit("face-detection-yunet-cpu");
    reveal_strlit("face-detection-yunet-gpu");
    reveal_strlit("image-classification-mobilenet-cpu");
    reveal_strlit("image-classification-mobilenet-gpu");
    assert(FACE_SCANNING_TASK@ != IMAGE_CLASSIFICATION_TASK@) by {
        assert(FACE_SCANNING_TASK@.len() != IMAGE_CLASSIFICATION_TASK@.len());
    }
    assert(FACE_MODEL_ID@[0] != CLASSIFICATION_MODEL_ID@[0]);
    assert(FACE_MODEL_ID@[0] != CLASSIFICATION_GPU_MODEL_ID@[0]);
    assert(FACE_GPU_MODEL_ID@[0] != CLASSIFICATION_MODEL_ID@[0]);
    assert(FACE_GPU_MODEL_ID@[0] != CLASSIFICATION_GPU_MODEL_ID@[0]);
}

/// An element is kept by a filter exactly when it is in the sequence and
/// passes the test.
proof fn lemma_filter_membership<A>(s: Seq<A>, p: spec_fn(A) -> bool, x: A)
    ensures
        s.filter(p).contains(x) <==> s.contains(x) && p(x),
{
    if s.filter(p).contains(x) {
        s.lemma_filter_contains_rev(p, x);
        let k = choose|k: int| 0 <= k < s.filter(p).len() && s.filter(p)[k] == x;
        s.lemma_filter_pred(p, k);
    }
    if s.contains(x) && p(x) {
        let k = choose|k: int| 0 <= k < s.len() && s[k] == x;
        s.lemma_filter_contains(p, k);
    }
}

/// The lookups by id (of a root, an item, a face, a metadata record, a model)
/// find a record only when its id is the one asked for, exactly, and find one
/// whenever some record has exactly that id.
pub proof fn law_lookups_by_exact_id(
    roots: Seq<LibraryRoot>,
    media: Seq<MediaItem>,
    faces: Seq<FaceCandidate>,
    md: Seq<MetadataView>,
    id: Seq<char>,
)
    ensures
        ({
            let i = first_index(roots, root_has_id(id));
            &&& i < roots.len() ==> roots[i].id@ == id
            &&& i == roots.len() <==> forall|j: int| 0 <= j < roots.len() ==> roots[j].id@ != id
        }),
        ({
            let i = first_index(media, item_has_id(id));
            &&& i < media.len() ==> media[i].id@ == id
            &&& i == media.len() <==> forall|j: int| 0 <= j < media.len() ==> media[j].id@ != id
        }),
        ({
            let i = first_index(faces, face_has_id(id));
            &&& i < faces.len() ==> faces[i].id@ == id
            &&& i == faces.len() <==> forall|j: int| 0 <= j < faces.len() ==> faces[j].id@ != id
        }),
        ({
            let i = metadata_slot(md, id);
            &&& i < md.len() ==> md[i].media_id == id
            &&& i == md.len() <==> forall|j: int| 0 <= j < md.len() ==> md[j].media_id != id
        }),
        ({
            let t = model_table();
            let i = first_index(t, definition_has_id(id));
            &&& i < t.len() ==> t[i].id@ == id
            &&& i == t.len() <==> forall|j: int| 0 <= j < t.len() ==> t[j].id@ != id
        }),
{
    lemma_first_index_props(roots, root_has_id(id));
    lemma_first_index_props(media, item_has_id(id));
    lemma_first_index_props(faces, face_has_id(id));
    lemma_first_index_props(md, metadata_of(id));
    lemma_first_index_props(model_table(), definition_has_id(id));
    assert forall|j: int| 0 <= j < roots.len() && roots[j].id@ == id implies #[trigger] root_has_id(
        id,
    )(roots[j]) by {}
    assert forall|j: int| 0 <= j < media.len() && media[j].id@ == id implies #[trigger] item_has_id(
        id,
    )(media[j]) by {}
    assert forall|j: int| 0 <= j < faces.len() && faces[j].id@ == id implies #[trigger] face_has_id(
        id,
    )(faces[j]) by {}
    assert forall|j: int| 0 <= j < md.len() && md[j].media_id == id implies #[trigger] metadata_of(
        id,
    )(md[j]) by {}
    assert forall|j: int|
        0 <= j < model_table().len() && model_table()[j].id@ == id implies #[trigger] definition_has_id(
        id,
    )(model_table()[j]) by {}
}

/// The selections by root, by id and by hash keep an item exactly when its
/// root, its id or its hash is the one named, character for character.
pub proof fn law_selections_by_exact_value(
    media: Seq<MediaItem>,
    faces: Seq<FaceCandidate>,
    md: Seq<MetadataView>,
    name: Seq<char>,
    ids: Seq<Seq<char>>,
    item: MediaItem,
    face: FaceCandidate,
    record: MetadataView,
)
    ensures
        media.filter(in_root(name)).contains(item) <==> media.contains(item) && item.root_id@
            == name,
        media.filter(outside_root(name)).contains(item) <==> media.contains(item) && item.root_id@
            != name,
        media.filter(photo_in_root(name)).contains(item) <==> media.contains(item) && item.root_id@
            == name && item.media_type == MediaType::Photo,
        media.filter(item_in(ids)).contains(item) <==> media.contains(item) && ids.contains(
            item.id@,
        ),
        media.filter(item_not_in(ids)).contains(item) <==> media.contains(item) && !ids.contains(
            item.id@,
        ),
        media.filter(with_hash(name)).contains(item) <==> media.contains(item) && (
        item.content_hash matches Some(h) && h@ == name),
        faces.filter(face_of(name)).contains(face) <==> faces.contains(face) && face.media_id@
            == name,
        faces.filter(face_not_of(name)).contains(face) <==> faces.contains(face) && face.media_id@
            != name,
        faces.filter(face_not_in(ids)).contains(face) <==> faces.contains(face) && !ids.contains(
            face.media_id@,
        ),
        md.filter(metadata_not_in(ids)).contains(record) <==> md.contains(record) && !ids.contains(
            record.media_id,
        ),
{
    lemma_filter_membership(media, in_root(name), item);
    lemma_filter_membership(media, outside_root(name), item);
    lemma_filter_membership(media, photo_in_root(name), item);
    lemma_filter_membership(media, item_in(ids), item);
    lemma_filter_membership(media, item_not_in(ids), item);
    lemma_filter_membership(media, with_hash(name), item);
    lemma_filter_membership(faces, face_of(name), face);
    lemma_filter_membership(faces, face_not_of(name), face);
    lemma_filter_membership(faces, face_not_in(ids), face);
    lemma_filter_membership(md, metadata_not_in(ids), record);
}

} // verus!
