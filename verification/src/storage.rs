//! The library's records as the database stores them: rows in, records out.
use vstd::prelude::*;

use crate::models::{
    clone_opt_string, strings_view, LibraryRoot, LibraryRootStatus, MediaItem,
    MediaMetadata, MediaType, MetadataView,
};
use crate::seqs::{lemma_filter_take_succ, lemma_map_push, lemma_take_all};
use crate::text::{eq_ignore_ascii_case, str_eq_ignore_ascii_case, str_equal};

verus! {

/// The kind a stored text stands for: a video when the text is `video` in any
/// ASCII case, a photo otherwise.
pub open spec fn media_type_from_label(value: Seq<char>) -> MediaType {
    if eq_ignore_ascii_case(value, "video"@) {
        MediaType::Video
    } else {
        MediaType::Photo
    }
}

/// The stored kind of an item (see `media_type_from_label`).
pub fn media_type_from_database(value: &str) -> (r: MediaType)
    ensures
        r == media_type_from_label(value@),
{
    if str_eq_ignore_ascii_case(value, "video") {
        MediaType::Video
    } else {
        MediaType::Photo
    }
}

/// The text a kind is stored as.
pub open spec fn media_type_label_spec(t: MediaType) -> Seq<char> {
    match t {
        MediaType::Photo => "photo"@,
        MediaType::Video => "video"@,
    }
}

/// The text a kind is stored as: its name in lowercase.
pub fn media_type_label(t: MediaType) -> (r: String)
    ensures
        r@ == media_type_label_spec(t),
{
    match t {
        MediaType::Photo => String::from_str("photo"),
        MediaType::Video => String::from_str("video"),
    }
}

/// A stored root as loaded: ready, with counts to be computed from its items.
pub fn root_from_row(id: String, name: String, path: String) -> (r: LibraryRoot)
    ensures
        r.id == id,
        r.name == name,
        r.path == path,
        r.status == LibraryRootStatus::Ready,
        r.photo_count == 0,
        r.video_count == 0,
        r.media_count == 0,
{
    LibraryRoot {
        id,
        name,
        path,
        status: LibraryRootStatus::Ready,
        photo_count: 0,
        video_count: 0,
        media_count: 0,
    }
}

/// A stored item as loaded, its kind read from the stored text.
pub fn media_item_from_row(
    id: String,
    root_id: String,
    name: String,
    path: String,
    media_type: &str,
    content_hash: Option<String>,
) -> (r: MediaItem)
    ensures
        r.id == id,
        r.root_id == root_id,
        r.name == name,
        r.path == path,
        r.media_type == media_type_from_label(media_type@),
        r.content_hash == content_hash,
{
    MediaItem { id, root_id, name, path, media_type: media_type_from_database(media_type), content_hash }
}

/// The row stored for an item: id, name, path, kind as text, content hash.
pub fn media_row(item: &MediaItem) -> (r: (String, String, String, String, Option<String>))
    ensures
        r.0 == item.id,
        r.1 == item.name,
        r.2 == item.path,
        r.3@ == media_type_label_spec(item.media_type),
        r.4 == item.content_hash,
{
    (
        item.id.clone(),
        item.name.clone(),
        item.path.clone(),
        media_type_label(item.media_type),
        clone_opt_string(&item.content_hash),
    )
}

/// Tag rows of the given item.
pub open spec fn tag_row_of(media_id: Seq<char>) -> spec_fn((String, String)) -> bool {
    |row: (String, String)| row.0@ == media_id
}

/// The tags stored for an item, in row order.
pub open spec fn stored_tags(tag_rows: Seq<(String, String)>, media_id: Seq<char>) -> Seq<Seq<char>> {
    tag_rows.filter(tag_row_of(media_id)).map_values(|row: (String, String)| row.1@)
}

/// Whether an earlier metadata row has the same item id.
pub open spec fn seen_before(rows: Seq<(String, i64)>, k: int) -> bool {
    exists|j: int| 0 <= j < k && #[trigger] rows[j].0@ == rows[k].0@
}

/// The record loaded from the `k`-th metadata row: the item's stored tags go
/// to the first row of that item only; favorite is any non-zero value.
pub open spec fn loaded_metadata(
    tag_rows: Seq<(String, String)>,
    rows: Seq<(String, i64)>,
    k: int,
) -> MetadataView {
    MetadataView {
        media_id: rows[k].0@,
        favorite: rows[k].1 != 0,
        tags: if seen_before(rows, k) {
            Seq::empty()
        } else {
            stored_tags(tag_rows, rows[k].0@)
        },
        face_ids: Seq::empty(),
    }
}

/// The tags of the given item, in row order.
fn tags_of(tag_rows: &Vec<(String, String)>, media_id: &str) -> (r: Vec<String>)
    ensures
        strings_view(r@) == stored_tags(tag_rows@, media_id@),
{
    let ghost p = tag_row_of(media_id@);
    let ghost f = |row: (String, String)| row.1@;
    let mut r: Vec<String> = Vec::new();
    let mut i: usize = 0;
    while i < tag_rows.len()
        invariant
            i <= tag_rows.len(),
            p == tag_row_of(media_id@),
            f == (|row: (String, String)| row.1@),
            strings_view(r@) == tag_rows@.take(i as int).filter(p).map_values(f),
        decreases tag_rows.len() - i,
    {
        proof {
            lemma_filter_take_succ(tag_rows@, i as int, p);
        }
        if str_equal(tag_rows[i].0.as_str(), media_id) {
            let t = tag_rows[i].1.clone();
            proof {
                lemma_map_push(r@, t, |s: String| s@);
                lemma_map_push(tag_rows@.take(i as int).filter(p), tag_rows@[i as int], f);
            }
            r.push(t);
        }
        i = i + 1;
    }
    proof {
        lemma_take_all(tag_rows@);
    }
    r
}

/// The metadata records loaded from the stored rows, one per metadata row in
/// order.
pub fn assemble_metadata(tag_rows: &Vec<(String, String)>, metadata_rows: &Vec<(String, i64)>) -> (r:
    Vec<MediaMetadata>)
    ensures
        r@.len() == metadata_rows@.len(),
        forall|k: int|
            0 <= k < r@.len() ==> #[trigger] r@[k]@ == loaded_metadata(tag_rows@, metadata_rows@, k),
{
    let mut r: Vec<MediaMetadata> = Vec::new();
    let mut k: usize = 0;
    while k < metadata_rows.len()
        invariant
            k <= metadata_rows.len(),
            r@.len() == k,
            forall|j: int|
                0 <= j < k ==> #[trigger] r@[j]@ == loaded_metadata(tag_rows@, metadata_rows@, j),
        decreases metadata_rows.len() - k,
    {
        let id = metadata_rows[k].0.as_str();
        let mut seen = false;
        let mut j: usize = 0;
        while j < k
            invariant
                j <= k < metadata_rows.len(),
                id@ == metadata_rows@[k as int].0@,
                seen == exists|m: int| 0 <= m < j && #[trigger] metadata_rows@[m].0@ == metadata_rows@[k as int].0@,
            decreases k - j,
        {
            if str_equal(metadata_rows[j].0.as_str(), id) {
                seen = true;
            }
            j = j + 1;
        }
        let tags = if seen {
            Vec::new()
        } else {
            tags_of(tag_rows, id)
        };
        proof {
            if seen {
                assert(strings_view(tags@) =~= Seq::<Seq<char>>::empty());
            }
        }
        let face_ids: Vec<String> = Vec::new();
        assert(strings_view(face_ids@) =~= Seq::<Seq<char>>::empty());
        let entry = MediaMetadata {
            media_id: metadata_rows[k].0.clone(),
            favorite: metadata_rows[k].1 != 0,
            tags,
            face_ids,
        };
        r.push(entry);
        k = k + 1;
    }
    r
}

} // verus!
