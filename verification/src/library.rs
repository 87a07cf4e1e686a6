//! The in-memory library: roots, the media found under them, per-item metadata
//! and detected faces.
use vstd::prelude::*;

use crate::models::{
    blank_metadata, clone_strings, FaceAnalysisResult, FaceAnalysisStatus, strings_view, FaceCandidate, LibraryOverview, LibraryRoot,
    LibraryRootStatus, MediaItem, MediaMetadata, MediaType, MetadataView, ScanStats,
};
use crate::seqs::{
    first_index, lemma_filter_take_succ, lemma_first_index, lemma_first_index_props,
    lemma_map_push, lemma_take_all, lemma_take_succ, lemma_total_prefix, total,
};
use crate::paths::{display_name, is_display_name};
use crate::duplicates::{duplicate_candidates, group_duplicates, is_dup_candidate, is_duplicate_grouping};
use crate::models::DuplicateGroup;
use crate::tags::{cleaned_tags, is_tag_normalization, normalize_tags};
use crate::text::{trim_string, trimmed, concat2, concat3, decimal, lemma_decimal_injective, push_decimal, str_equal};

verus! {

/// The meaning of a library state.
pub ghost struct LibraryView {
    pub roots: Seq<LibraryRoot>,
    pub media: Seq<MediaItem>,
    pub metadata: Seq<MetadataView>,
    pub faces: Seq<FaceCandidate>,
}

/// The library kept in memory.
pub struct LibraryState {
    roots: Vec<LibraryRoot>,
    media_items: Vec<MediaItem>,
    metadata: Vec<MediaMetadata>,
    faces: Vec<FaceCandidate>,
}

/// The views of a list of metadata records.
pub open spec fn metadata_views(s: Seq<MediaMetadata>) -> Seq<MetadataView> {
    s.map_values(|m: MediaMetadata| m@)
}

impl View for LibraryState {
    type V = LibraryView;

    closed spec fn view(&self) -> LibraryView {
        LibraryView {
            roots: self.roots@,
            media: self.media_items@,
            metadata: metadata_views(self.metadata@),
            faces: self.faces@,
        }
    }
}

// ---------------------------------------------------------------------------
// What the operations mean.
/// Roots with the given id.
pub open spec fn root_has_id(id: Seq<char>) -> spec_fn(LibraryRoot) -> bool {
    |r: LibraryRoot| r.id@ == id
}

/// Roots with the given path.
pub open spec fn root_has_path(path: Seq<char>) -> spec_fn(LibraryRoot) -> bool {
    |r: LibraryRoot| r.path@ == path
}

/// Items under the given root.
pub open spec fn in_root(root_id: Seq<char>) -> spec_fn(MediaItem) -> bool {
    |m: MediaItem| m.root_id@ == root_id
}

/// Items not under the given root.
pub open spec fn outside_root(root_id: Seq<char>) -> spec_fn(MediaItem) -> bool {
    |m: MediaItem| m.root_id@ != root_id
}

/// Photos under the given root.
pub open spec fn photo_in_root(root_id: Seq<char>) -> spec_fn(MediaItem) -> bool {
    |m: MediaItem| m.root_id@ == root_id && m.media_type == MediaType::Photo
}

/// Items of the given type under the given root.
pub open spec fn of_type_in_root(root_id: Seq<char>, t: MediaType) -> spec_fn(MediaItem) -> bool {
    |m: MediaItem| m.root_id@ == root_id && m.media_type == t
}

/// Items with the given id.
pub open spec fn item_has_id(id: Seq<char>) -> spec_fn(MediaItem) -> bool {
    |m: MediaItem| m.id@ == id
}

/// Items whose id is one of `ids`.
pub open spec fn item_in(ids: Seq<Seq<char>>) -> spec_fn(MediaItem) -> bool {
    |m: MediaItem| ids.contains(m.id@)
}

/// Items whose id is not one of `ids`.
pub open spec fn item_not_in(ids: Seq<Seq<char>>) -> spec_fn(MediaItem) -> bool {
    |m: MediaItem| !ids.contains(m.id@)
}

/// Metadata of items whose id is not one of `ids`.
pub open spec fn metadata_not_in(ids: Seq<Seq<char>>) -> spec_fn(MetadataView) -> bool {
    |m: MetadataView| !ids.contains(m.media_id)
}

/// Faces of items whose id is not one of `ids`.
pub open spec fn face_not_in(ids: Seq<Seq<char>>) -> spec_fn(FaceCandidate) -> bool {
    |f: FaceCandidate| !ids.contains(f.media_id@)
}

/// Faces of the given item.
pub open spec fn face_of(media_id: Seq<char>) -> spec_fn(FaceCandidate) -> bool {
    |f: FaceCandidate| f.media_id@ == media_id
}

/// Faces of other items than the given one.
pub open spec fn face_not_of(media_id: Seq<char>) -> spec_fn(FaceCandidate) -> bool {
    |f: FaceCandidate| f.media_id@ != media_id
}

/// Faces with the given id.
pub open spec fn face_has_id(id: Seq<char>) -> spec_fn(FaceCandidate) -> bool {
    |f: FaceCandidate| f.id@ == id
}

/// Metadata records of the given item.
pub open spec fn metadata_of(media_id: Seq<char>) -> spec_fn(MetadataView) -> bool {
    |m: MetadataView| m.media_id == media_id
}

/// The ids of a list of items.
pub open spec fn item_ids(items: Seq<MediaItem>) -> Seq<Seq<char>> {
    items.map_values(|m: MediaItem| m.id@)
}

/// The ids of a list of faces.
pub open spec fn face_ids(faces: Seq<FaceCandidate>) -> Seq<Seq<char>> {
    faces.map_values(|f: FaceCandidate| f.id@)
}

/// Number of items of the given type under the given root.
pub open spec fn count_of(media: Seq<MediaItem>, root_id: Seq<char>, t: MediaType) -> nat {
    media.filter(of_type_in_root(root_id, t)).len()
}

/// A root with its counts taken from the items under it.
pub open spec fn recounted_root(r: LibraryRoot, media: Seq<MediaItem>) -> LibraryRoot {
    LibraryRoot {
        photo_count: count_of(media, r.id@, MediaType::Photo) as u64,
        video_count: count_of(media, r.id@, MediaType::Video) as u64,
        media_count: (count_of(media, r.id@, MediaType::Photo) + count_of(
            media,
            r.id@,
            MediaType::Video,
        )) as u64,
        ..r
    }
}

/// Every root with its counts taken from the items under it.
pub open spec fn recounted(roots: Seq<LibraryRoot>, media: Seq<MediaItem>) -> Seq<LibraryRoot> {
    roots.map_values(|r: LibraryRoot| recounted_root(r, media))
}

/// The message for an unknown root.
pub open spec fn root_not_found(root_id: Seq<char>) -> Seq<char> {
    "library root '"@ + root_id + "' was not found"@
}

/// The message for an unknown item.
pub open spec fn media_not_found(media_id: Seq<char>) -> Seq<char> {
    "media item '"@ + media_id + "' was not found"@
}

/// The message for an unknown face.
pub open spec fn face_not_found(face_id: Seq<char>) -> Seq<char> {
    "face '"@ + face_id + "' was not found"@
}

/// Whether some item has the given id.
pub open spec fn has_media(media: Seq<MediaItem>, media_id: Seq<char>) -> bool {
    exists|i: int| 0 <= i < media.len() && #[trigger] media[i].id@ == media_id
}

/// The page of `s` that skips `offset` elements and keeps at most `limit`.
pub open spec fn page<A>(s: Seq<A>, offset: int, limit: int) -> Seq<A> {
    let start = if offset < s.len() {
        offset
    } else {
        s.len() as int
    };
    let end = if start + limit < s.len() {
        start + limit
    } else {
        s.len() as int
    };
    s.subrange(start, end)
}

/// Position of an item's metadata record, or the length if it has none.
pub open spec fn metadata_slot(metadata: Seq<MetadataView>, media_id: Seq<char>) -> int {
    first_index(metadata, metadata_of(media_id))
}

/// The records with one for the item added at the end if it had none.
pub open spec fn with_metadata_slot(metadata: Seq<MetadataView>, media_id: Seq<char>) -> Seq<
    MetadataView,
> {
    if metadata_slot(metadata, media_id) < metadata.len() {
        metadata
    } else {
        metadata.push(blank_metadata(media_id))
    }
}

/// The item's metadata: its first record, or a blank one.
pub open spec fn metadata_lookup(metadata: Seq<MetadataView>, media_id: Seq<char>) -> MetadataView {
    with_metadata_slot(metadata, media_id)[metadata_slot(metadata, media_id)]
}

/// The records after the item's record (added if missing) has been replaced by `entry`.
pub open spec fn metadata_with(
    metadata: Seq<MetadataView>,
    media_id: Seq<char>,
    entry: MetadataView,
) -> Seq<MetadataView> {
    with_metadata_slot(metadata, media_id).update(metadata_slot(metadata, media_id), entry)
}

/// A root with a new status.
pub open spec fn with_status(r: LibraryRoot, status: LibraryRootStatus) -> LibraryRoot {
    LibraryRoot { status, ..r }
}

// ---------------------------------------------------------------------------
// Lookups.
/// Position of the first root with the given id, or the number of roots.
pub fn find_root(roots: &Vec<LibraryRoot>, root_id: &str) -> (i: usize)
    ensures
        i == first_index(roots@, root_has_id(root_id@)),
        i <= roots.len(),
        i < roots.len() ==> roots@[i as int].id@ == root_id@,
        i == roots.len() ==> forall|j: int| 0 <= j < roots.len() ==> roots@[j].id@ != root_id@,
{
    let mut i: usize = 0;
    while i < roots.len()
        invariant
            i <= roots.len(),
            forall|j: int| 0 <= j < i ==> !root_has_id(root_id@)(#[trigger] roots@[j]),
        decreases roots.len() - i,
    {
        if str_equal(roots[i].id.as_str(), root_id) {
            proof {
                lemma_first_index(roots@, root_has_id(root_id@), i as int);
            }
            return i;
        }
        i = i + 1;
    }
    proof {
        lemma_first_index(roots@, root_has_id(root_id@), i as int);
    }
    i
}

/// Position of the first item with the given id, or the number of items.
pub fn find_media(media: &Vec<MediaItem>, media_id: &str) -> (i: usize)
    ensures
        i == first_index(media@, item_has_id(media_id@)),
        i <= media.len(),
        i < media.len() ==> media@[i as int].id@ == media_id@,
        i == media.len() <==> !has_media(media@, media_id@),
{
    let mut i: usize = 0;
    while i < media.len()
        invariant
            i <= media.len(),
            forall|j: int| 0 <= j < i ==> !item_has_id(media_id@)(#[trigger] media@[j]),
        decreases media.len() - i,
    {
        if str_equal(media[i].id.as_str(), media_id) {
            proof {
                lemma_first_index(media@, item_has_id(media_id@), i as int);
            }
            return i;
        }
        i = i + 1;
    }
    proof {
        lemma_first_index(media@, item_has_id(media_id@), i as int);
        assert forall|j: int| 0 <= j < media.len() implies #[trigger] media@[j].id@ != media_id@ by {
            assert(!item_has_id(media_id@)(media@[j]));
        }
    }
    i
}

/// Position of the first metadata record of the given item, or the number of records.
fn find_metadata(metadata: &Vec<MediaMetadata>, media_id: &str) -> (i: usize)
    ensures
        i == metadata_slot(metadata_views(metadata@), media_id@),
        i <= metadata.len(),
{
    let ghost mv = metadata_views(metadata@);
    let mut i: usize = 0;
    while i < metadata.len()
        invariant
            mv == metadata_views(metadata@),
            i <= metadata.len(),
            forall|j: int| 0 <= j < i ==> !metadata_of(media_id@)(#[trigger] mv[j]),
        decreases metadata.len() - i,
    {
        if str_equal(metadata[i].media_id.as_str(), media_id) {
            proof {
                lemma_first_index(mv, metadata_of(media_id@), i as int);
            }
            return i;
        }
        i = i + 1;
    }
    proof {
        lemma_first_index(mv, metadata_of(media_id@), i as int);
    }
    i
}

/// Whether `id` is one of `ids`.
pub fn contains_string(ids: &[String], id: &str) -> (r: bool)
    ensures
        r == strings_view(ids@).contains(id@),
{
    let mut i: usize = 0;
    while i < ids.len()
        invariant
            i <= ids.len(),
            forall|j: int| 0 <= j < i ==> ids@[j]@ != id@,
        decreases ids.len() - i,
    {
        if str_equal(ids[i].as_str(), id) {
            assert(strings_view(ids@)[i as int] == id@);
            return true;
        }
        i = i + 1;
    }
    proof {
        if strings_view(ids@).contains(id@) {
            let k = choose|k: int| 0 <= k < ids@.len() && strings_view(ids@)[k] == id@;
            assert(ids@[k]@ == id@);
        }
    }
    false
}

/// The message for an unknown root.
pub fn root_not_found_message(root_id: &str) -> (r: String)
    ensures
        r@ == root_not_found(root_id@),
{
    concat3("library root '", root_id, "' was not found")
}

/// The message for an unknown item.
pub fn media_not_found_message(media_id: &str) -> (r: String)
    ensures
        r@ == media_not_found(media_id@),
{
    concat3("media item '", media_id, "' was not found")
}

/// The message for an unknown face.
pub fn face_not_found_message(face_id: &str) -> (r: String)
    ensures
        r@ == face_not_found(face_id@),
{
    concat3("face '", face_id, "' was not found")
}

/// Number of items of the given type under the given root.
fn count_items(media: &Vec<MediaItem>, root_id: &str, t: MediaType) -> (n: u64)
    ensures
        n == count_of(media@, root_id@, t),
{
    let mut n: u64 = 0;
    let mut i: usize = 0;
    while i < media.len()
        invariant
            i <= media.len(),
            n == media@.take(i as int).filter(of_type_in_root(root_id@, t)).len(),
            n <= i,
        decreases media.len() - i,
    {
        proof {
            lemma_filter_take_succ(media@, i as int, of_type_in_root(root_id@, t));
        }
        if media[i].media_type == t && str_equal(media[i].root_id.as_str(), root_id) {
            n = n + 1;
        }
        i = i + 1;
    }
    proof {
        lemma_take_all(media@);
    }
    n
}

/// Sets each root's photo, video and media counts from the items under it.
pub fn recount_root_counts(roots: &mut Vec<LibraryRoot>, media_items: &Vec<MediaItem>)
    ensures
        final(roots)@ == recounted(old(roots)@, media_items@),
{
    let ghost before = roots@;
    let mut i: usize = 0;
    while i < roots.len()
        invariant
            i <= roots.len(),
            roots.len() == before.len(),
            forall|j: int| 0 <= j < i ==> roots@[j] == recounted_root(before[j], media_items@),
            forall|j: int| i <= j < roots.len() ==> roots@[j] == before[j],
        decreases roots.len() - i,
    {
        let photos = count_items(media_items, roots[i].id.as_str(), MediaType::Photo);
        let videos = count_items(media_items, roots[i].id.as_str(), MediaType::Video);
        let total_items = media_items.len();
        proof {
            assert(total_items as int <= u64::MAX);
            assert(count_of(media_items@, roots@[i as int].id@, MediaType::Photo) + count_of(
                media_items@,
                roots@[i as int].id@,
                MediaType::Video,
            ) <= media_items@.len()) by {
                lemma_count_split(media_items@, roots@[i as int].id@);
            }
        }
        let mut root = roots[i].clone();
        root.photo_count = photos;
        root.video_count = videos;
        root.media_count = photos + videos;
        roots.set(i, root);
        i = i + 1;
    }
    assert(roots@ =~= recounted(before, media_items@));
}

/// The photos and the videos of a root together are no more than all items.
pub proof fn lemma_count_split(media: Seq<MediaItem>, root_id: Seq<char>)
    ensures
        count_of(media, root_id, MediaType::Photo) + count_of(media, root_id, MediaType::Video)
            <= media.len(),
    decreases media.len(),
{
    reveal(Seq::filter);
    if media.len() > 0 {
        lemma_count_split(media.drop_last(), root_id);
    }
}


/// The items under (`inside`) or outside a root, in order.
fn filter_by_root(media: &Vec<MediaItem>, root_id: &str, inside: bool) -> (r: Vec<MediaItem>)
    ensures
        r@ == media@.filter(if inside { in_root(root_id@) } else { outside_root(root_id@) }),
{
    let ghost p = if inside { in_root(root_id@) } else { outside_root(root_id@) };
    let mut r: Vec<MediaItem> = Vec::new();
    let mut i: usize = 0;
    while i < media.len()
        invariant
            i <= media.len(),
            p == (if inside { in_root(root_id@) } else { outside_root(root_id@) }),
            r@ == media@.take(i as int).filter(p),
        decreases media.len() - i,
    {
        proof {
            lemma_filter_take_succ(media@, i as int, p);
        }
        if str_equal(media[i].root_id.as_str(), root_id) == inside {
            r.push(media[i].clone());
        }
        i = i + 1;
    }
    proof {
        lemma_take_all(media@);
    }
    r
}

/// The items whose id is (`inside`) or is not one of `ids`, in order.
fn filter_by_ids(media: &Vec<MediaItem>, ids: &[String], inside: bool) -> (r: Vec<MediaItem>)
    ensures
        r@ == media@.filter(
            if inside {
                item_in(strings_view(ids@))
            } else {
                item_not_in(strings_view(ids@))
            },
        ),
{
    let ghost p = if inside {
        item_in(strings_view(ids@))
    } else {
        item_not_in(strings_view(ids@))
    };
    let mut r: Vec<MediaItem> = Vec::new();
    let mut i: usize = 0;
    while i < media.len()
        invariant
            i <= media.len(),
            p == (if inside {
                item_in(strings_view(ids@))
            } else {
                item_not_in(strings_view(ids@))
            }),
            r@ == media@.take(i as int).filter(p),
        decreases media.len() - i,
    {
        proof {
            lemma_filter_take_succ(media@, i as int, p);
        }
        if contains_string(ids, media[i].id.as_str()) == inside {
            r.push(media[i].clone());
        }
        i = i + 1;
    }
    proof {
        lemma_take_all(media@);
    }
    r
}

/// The metadata records of items whose id is not one of `ids`.
fn metadata_without(metadata: &Vec<MediaMetadata>, ids: &[String]) -> (r: Vec<MediaMetadata>)
    ensures
        metadata_views(r@) == metadata_views(metadata@).filter(metadata_not_in(strings_view(ids@))),
{
    let ghost p = metadata_not_in(strings_view(ids@));
    let ghost mv = metadata_views(metadata@);
    let mut r: Vec<MediaMetadata> = Vec::new();
    let mut i: usize = 0;
    while i < metadata.len()
        invariant
            i <= metadata.len(),
            p == metadata_not_in(strings_view(ids@)),
            mv == metadata_views(metadata@),
            metadata_views(r@) == mv.take(i as int).filter(p),
        decreases metadata.len() - i,
    {
        proof {
            lemma_filter_take_succ(mv, i as int, p);
        }
        if !contains_string(ids, metadata[i].media_id.as_str()) {
            let m = metadata[i].clone();
            proof {
                lemma_map_push(r@, m, |m: MediaMetadata| m@);
            }
            r.push(m);
        }
        i = i + 1;
    }
    proof {
        lemma_take_all(mv);
    }
    r
}

/// The faces of items whose id is not one of `ids`.
fn faces_without(faces: &Vec<FaceCandidate>, ids: &[String]) -> (r: Vec<FaceCandidate>)
    ensures
        r@ == faces@.filter(face_not_in(strings_view(ids@))),
{
    let ghost p = face_not_in(strings_view(ids@));
    let mut r: Vec<FaceCandidate> = Vec::new();
    let mut i: usize = 0;
    while i < faces.len()
        invariant
            i <= faces.len(),
            p == face_not_in(strings_view(ids@)),
            r@ == faces@.take(i as int).filter(p),
        decreases faces.len() - i,
    {
        proof {
            lemma_filter_take_succ(faces@, i as int, p);
        }
        if !contains_string(ids, faces[i].media_id.as_str()) {
            r.push(faces[i].clone());
        }
        i = i + 1;
    }
    proof {
        lemma_take_all(faces@);
    }
    r
}

/// The faces of (`inside`) or other than the given item.
fn faces_by_media(faces: &Vec<FaceCandidate>, media_id: &str, inside: bool) -> (r: Vec<FaceCandidate>)
    ensures
        r@ == faces@.filter(if inside { face_of(media_id@) } else { face_not_of(media_id@) }),
{
    let ghost p = if inside { face_of(media_id@) } else { face_not_of(media_id@) };
    let mut r: Vec<FaceCandidate> = Vec::new();
    let mut i: usize = 0;
    while i < faces.len()
        invariant
            i <= faces.len(),
            p == (if inside { face_of(media_id@) } else { face_not_of(media_id@) }),
            r@ == faces@.take(i as int).filter(p),
        decreases faces.len() - i,
    {
        proof {
            lemma_filter_take_succ(faces@, i as int, p);
        }
        if str_equal(faces[i].media_id.as_str(), media_id) == inside {
            r.push(faces[i].clone());
        }
        i = i + 1;
    }
    proof {
        lemma_take_all(faces@);
    }
    r
}

/// The ids of a list of items, in order.
fn ids_of(items: &Vec<MediaItem>) -> (r: Vec<String>)
    ensures
        strings_view(r@) == item_ids(items@),
{
    let mut r: Vec<String> = Vec::new();
    let mut i: usize = 0;
    while i < items.len()
        invariant
            i <= items.len(),
            strings_view(r@) == item_ids(items@.take(i as int)),
        decreases items.len() - i,
    {
        let id = items[i].id.clone();
        proof {
            lemma_map_push(r@, id, |s: String| s@);
            lemma_take_succ(items@, i as int);
            lemma_map_push(items@.take(i as int), items@[i as int], |m: MediaItem| m.id@);
        }
        r.push(id);
        i = i + 1;
    }
    proof {
        lemma_take_all(items@);
    }
    r
}

/// A copy of a list of faces.
pub fn clone_faces(faces: &Vec<FaceCandidate>) -> (r: Vec<FaceCandidate>)
    ensures
        r@ == faces@,
{
    let mut r: Vec<FaceCandidate> = Vec::new();
    let mut i: usize = 0;
    while i < faces.len()
        invariant
            i <= faces.len(),
            r@ == faces@.take(i as int),
        decreases faces.len() - i,
    {
        r.push(faces[i].clone());
        proof {
            lemma_take_succ(faces@, i as int);
        }
        i = i + 1;
    }
    proof {
        lemma_take_all(faces@);
    }
    r
}

/// A copy of a list of roots.
fn clone_roots(roots: &Vec<LibraryRoot>) -> (r: Vec<LibraryRoot>)
    ensures
        r@ == roots@,
{
    let mut r: Vec<LibraryRoot> = Vec::new();
    let mut i: usize = 0;
    while i < roots.len()
        invariant
            i <= roots.len(),
            r@ == roots@.take(i as int),
        decreases roots.len() - i,
    {
        r.push(roots[i].clone());
        proof {
            lemma_take_succ(roots@, i as int);
        }
        i = i + 1;
    }
    proof {
        lemma_take_all(roots@);
    }
    r
}

/// The elements of `v` from `start` up to `end`.
fn copy_range(v: &Vec<MediaItem>, start: usize, end: usize) -> (r: Vec<MediaItem>)
    requires
        start <= end <= v.len(),
    ensures
        r@ == v@.subrange(start as int, end as int),
{
    let mut r: Vec<MediaItem> = Vec::new();
    let mut i: usize = start;
    while i < end
        invariant
            start <= i <= end <= v.len(),
            r@ == v@.subrange(start as int, i as int),
        decreases end - i,
    {
        r.push(v[i].clone());
        assert(v@.subrange(start as int, i + 1) == v@.subrange(start as int, i as int).push(
            v@[i as int],
        ));
        i = i + 1;
    }
    r
}

/// The id `root-<n>`.
pub open spec fn root_id_for(n: nat) -> Seq<char> {
    "root-"@ + decimal(n)
}

/// Whether some root has the given id.
pub open spec fn id_taken(roots: Seq<LibraryRoot>, id: Seq<char>) -> bool {
    exists|j: int| 0 <= j < roots.len() && #[trigger] roots[j].id@ == id
}

/// `root-<n>` is the first id of that form that no root has.
pub open spec fn is_next_root_number(roots: Seq<LibraryRoot>, n: nat) -> bool {
    &&& n >= 1
    &&& !id_taken(roots, root_id_for(n))
    &&& forall|m: nat| 1 <= m < n ==> id_taken(roots, #[trigger] root_id_for(m))
}

proof fn lemma_root_id_injective(a: nat, b: nat)
    requires
        root_id_for(a) == root_id_for(b),
    ensures
        a == b,
{
    let p = "root-"@;
    assert(root_id_for(a).skip(p.len() as int) == decimal(a));
    assert(root_id_for(b).skip(p.len() as int) == decimal(b));
    lemma_decimal_injective(a, b);
}

/// The ids `root-1` .. `root-k`.
spec fn first_root_ids(k: nat) -> Set<Seq<char>> {
    Set::new(|s: Seq<char>| exists|m: nat| 1 <= m <= k && s == #[trigger] root_id_for(m))
}

proof fn lemma_first_root_ids_len(k: nat)
    ensures
        first_root_ids(k).finite(),
        first_root_ids(k).len() == k,
    decreases k,
{
    if k == 0 {
        assert(first_root_ids(0) =~= Set::empty());
    } else {
        lemma_first_root_ids_len((k - 1) as nat);
        assert forall|s: Seq<char>| first_root_ids(k).contains(s) <==> first_root_ids(
            (k - 1) as nat,
        ).insert(root_id_for(k)).contains(s) by {
            if first_root_ids(k).contains(s) {
                let m = choose|m: nat| 1 <= m <= k && s == #[trigger] root_id_for(m);
                if m < k {
                    assert(first_root_ids((k - 1) as nat).contains(s));
                }
            }
        }
        assert(first_root_ids(k) =~= first_root_ids((k - 1) as nat).insert(root_id_for(k)));
        if first_root_ids((k - 1) as nat).contains(root_id_for(k)) {
            let m = choose|m: nat| 1 <= m <= k - 1 && root_id_for(k) == #[trigger] root_id_for(m);
            lemma_root_id_injective(k, m);
        }
    }
}

/// If `root-1` .. `root-k` are all taken, there are at least `k` roots.
proof fn lemma_taken_ids_bound(roots: Seq<LibraryRoot>, k: nat)
    requires
        forall|m: nat| 1 <= m <= k ==> id_taken(roots, #[trigger] root_id_for(m)),
    ensures
        k <= roots.len(),
{
    let ids = roots.map_values(|r: LibraryRoot| r.id@);
    ids.lemma_cardinality_of_set();
    lemma_first_root_ids_len(k);
    assert forall|s: Seq<char>| first_root_ids(k).contains(s) implies ids.to_set().contains(s) by {
        let m = choose|m: nat| 1 <= m <= k && s == #[trigger] root_id_for(m);
        assert(id_taken(roots, root_id_for(m)));
        let j = choose|j: int| 0 <= j < roots.len() && #[trigger] roots[j].id@ == root_id_for(m);
        assert(ids[j] == s);
    }
    vstd::set_lib::lemma_len_subset(first_root_ids(k), ids.to_set());
}

/// Whether some root has the given id.
fn root_id_taken(roots: &Vec<LibraryRoot>, id: &str) -> (r: bool)
    ensures
        r == id_taken(roots@, id@),
{
    let i = find_root(roots, id);
    i < roots.len()
}

/// The first id `root-<n>`, counting from 1, that no root has.
pub fn next_root_id(roots: &Vec<LibraryRoot>) -> (r: String)
    requires
        roots.len() < usize::MAX,
    ensures
        exists|n: nat| is_next_root_number(roots@, n) && r@ == root_id_for(n),
{
    let mut index: u64 = 1;
    loop
        invariant
            1 <= index <= roots.len() + 1,
            roots.len() < usize::MAX,
            forall|m: nat| 1 <= m < index ==> id_taken(roots@, #[trigger] root_id_for(m)),
        decreases roots.len() + 1 - index,
    {
        let mut candidate = String::from_str("root-");
        push_decimal(&mut candidate, index);
        if !root_id_taken(roots, candidate.as_str()) {
            assert(is_next_root_number(roots@, index as nat));
            return candidate;
        }
        proof {
            assert forall|m: nat| 1 <= m <= index implies id_taken(roots@, #[trigger] root_id_for(m)) by {
            }
            lemma_taken_ids_bound(roots@, index as nat);
        }
        index = index + 1;
    }
}

/// The root `add_root` creates for a new folder.
pub open spec fn is_new_root(r: LibraryRoot, roots: Seq<LibraryRoot>, path: Seq<char>) -> bool {
    &&& exists|n: nat| is_next_root_number(roots, n) && r.id@ == root_id_for(n)
    &&& r.path@ == path
    &&& is_display_name(r.name@, path)
    &&& r.status == LibraryRootStatus::Ready
    &&& r.photo_count == 0
    &&& r.video_count == 0
    &&& r.media_count == 0
}

/// The folder path to add, from what the file system said of it: its metadata
/// (whether it is a directory, or the error) and its canonical form.
pub open spec fn normalized_path_spec(
    is_dir: Result<bool, Seq<char>>,
    canonical: Result<Seq<char>, Seq<char>>,
) -> Result<Seq<char>, Seq<char>> {
    match is_dir {
        Err(e) => Err("folder is unavailable: "@ + e),
        Ok(false) => Err("selected path is not a folder"@),
        Ok(true) => match canonical {
            Ok(p) => Ok(p),
            Err(e) => Err("failed to resolve folder path: "@ + e),
        },
    }
}

/// A `Result` of strings by its views.
pub open spec fn result_view<T: View>(r: Result<T, String>) -> Result<T::V, Seq<char>> {
    match r {
        Ok(v) => Ok(v@),
        Err(e) => Err(e@),
    }
}

/// The folder path to add: the canonical path of an existing directory.
pub fn normalize_path(is_dir: Result<bool, String>, canonical: Result<String, String>) -> (r: Result<
    String,
    String,
>)
    ensures
        result_view(r) == normalized_path_spec(
            match is_dir {
                Ok(b) => Ok(b),
                Err(e) => Err(e@),
            },
            result_view(canonical),
        ),
{
    match is_dir {
        Err(e) => Err(concat2("folder is unavailable: ", e.as_str())),
        Ok(false) => Err(String::from_str("selected path is not a folder")),
        Ok(true) => match canonical {
            Ok(p) => Ok(p),
            Err(e) => Err(concat2("failed to resolve folder path: ", e.as_str())),
        },
    }
}

/// Position of the first root with the given path, or the number of roots.
fn find_root_by_path(roots: &Vec<LibraryRoot>, path: &str) -> (i: usize)
    ensures
        i == first_index(roots@, root_has_path(path@)),
        i <= roots.len(),
{
    let mut i: usize = 0;
    while i < roots.len()
        invariant
            i <= roots.len(),
            forall|j: int| 0 <= j < i ==> !root_has_path(path@)(#[trigger] roots@[j]),
        decreases roots.len() - i,
    {
        if str_equal(roots[i].path.as_str(), path) {
            proof {
                lemma_first_index(roots@, root_has_path(path@), i as int);
            }
            return i;
        }
        i = i + 1;
    }
    proof {
        lemma_first_index(roots@, root_has_path(path@), i as int);
    }
    i
}

/// Roots without the given id.
pub open spec fn root_without_id(id: Seq<char>) -> spec_fn(LibraryRoot) -> bool {
    |r: LibraryRoot| r.id@ != id
}

/// A root after a finished scan: ready, with the scan's counts.
pub open spec fn scanned_root(r: LibraryRoot, stats: ScanStats) -> LibraryRoot {
    LibraryRoot {
        status: LibraryRootStatus::Ready,
        photo_count: stats.photo_count,
        video_count: stats.video_count,
        media_count: stats.media_count,
        ..r
    }
}

/// `f` is `old` with its name set from `name`: trimmed, or none if that leaves nothing.
pub open spec fn is_renamed_face(old: FaceCandidate, f: FaceCandidate, name: Seq<char>) -> bool {
    &&& f.id == old.id
    &&& f.media_id == old.media_id
    &&& f.confidence == old.confidence
    &&& f.x == old.x
    &&& f.y == old.y
    &&& f.width == old.width
    &&& f.height == old.height
    &&& match f.name {
        Some(n) => n@ == trimmed(name) && trimmed(name).len() > 0,
        None => trimmed(name).len() == 0,
    }
}

/// The message of a face analysis that has no model to run.
pub open spec fn face_model_missing_message() -> Seq<char> {
    "Face analysis is ready for a local model, but no model bundle is installed yet."@
}

/// Outcome of a scan: its counts and the items found.
pub struct ScanResult {
    pub stats: ScanStats,
    pub items: Vec<MediaItem>,
}

/// The roots without the given id, in order.
fn roots_without(roots: &Vec<LibraryRoot>, root_id: &str) -> (r: Vec<LibraryRoot>)
    ensures
        r@ == roots@.filter(root_without_id(root_id@)),
{
    let ghost p = root_without_id(root_id@);
    let mut r: Vec<LibraryRoot> = Vec::new();
    let mut i: usize = 0;
    while i < roots.len()
        invariant
            i <= roots.len(),
            p == root_without_id(root_id@),
            r@ == roots@.take(i as int).filter(p),
        decreases roots.len() - i,
    {
        proof {
            lemma_filter_take_succ(roots@, i as int, p);
        }
        if !str_equal(roots[i].id.as_str(), root_id) {
            r.push(roots[i].clone());
        }
        i = i + 1;
    }
    proof {
        lemma_take_all(roots@);
    }
    r
}

/// The item's metadata record, added blank at the end if it had none.
pub fn metadata_entry(metadata: &mut Vec<MediaMetadata>, media_id: String) -> (entry:
    &mut MediaMetadata)
    ensures
        ({
            let before = metadata_views(old(metadata)@);
            let slot = metadata_slot(before, media_id@);
            &&& (*entry)@ == with_metadata_slot(before, media_id@)[slot]
            &&& metadata_views(final(metadata)@) == with_metadata_slot(before, media_id@).update(
                slot,
                (*final(entry))@,
            )
        }),
{
    let ghost before = metadata_views(metadata@);
    let i = find_metadata(metadata, media_id.as_str());
    proof {
        lemma_first_index_props(before, metadata_of(media_id@));
    }
    if i < metadata.len() {
        proof {
            assert forall|f: MediaMetadata| metadata_views(metadata@.update(i as int, f))
                == before.update(i as int, f@) by {
                assert(metadata_views(metadata@.update(i as int, f)) =~= before.update(
                    i as int,
                    f@,
                ));
            }
        }
        &mut metadata[i]
    } else {
        let fresh = MediaMetadata::new_for(media_id);
        proof {
            lemma_map_push(metadata@, fresh, |m: MediaMetadata| m@);
        }
        metadata.push(fresh);
        let n = metadata.len() - 1;
        proof {
            assert forall|f: MediaMetadata| metadata_views(metadata@.update(n as int, f))
                == before.push(blank_metadata(media_id@)).update(n as int, f@) by {
                assert(metadata_views(metadata@.update(n as int, f)) =~= before.push(
                    blank_metadata(media_id@),
                ).update(n as int, f@));
            }
        }
        &mut metadata[n]
    }
}

/// Position of the first face with the given id, or the number of faces.
fn find_face(faces: &Vec<FaceCandidate>, face_id: &str) -> (i: usize)
    ensures
        i == first_index(faces@, face_has_id(face_id@)),
        i <= faces.len(),
{
    let mut i: usize = 0;
    while i < faces.len()
        invariant
            i <= faces.len(),
            forall|j: int| 0 <= j < i ==> !face_has_id(face_id@)(#[trigger] faces@[j]),
        decreases faces.len() - i,
    {
        if str_equal(faces[i].id.as_str(), face_id) {
            proof {
                lemma_first_index(faces@, face_has_id(face_id@), i as int);
            }
            return i;
        }
        i = i + 1;
    }
    proof {
        lemma_first_index(faces@, face_has_id(face_id@), i as int);
    }
    i
}

/// The ids of a list of faces, in order.
fn face_id_strings(faces: &Vec<FaceCandidate>) -> (r: Vec<String>)
    ensures
        strings_view(r@) == face_ids(faces@),
{
    let mut r: Vec<String> = Vec::new();
    let mut i: usize = 0;
    while i < faces.len()
        invariant
            i <= faces.len(),
            strings_view(r@) == face_ids(faces@.take(i as int)),
        decreases faces.len() - i,
    {
        let id = faces[i].id.clone();
        proof {
            lemma_map_push(r@, id, |s: String| s@);
            lemma_take_succ(faces@, i as int);
            lemma_map_push(faces@.take(i as int), faces@[i as int], |f: FaceCandidate| f.id@);
        }
        r.push(id);
        i = i + 1;
    }
    proof {
        lemma_take_all(faces@);
    }
    r
}

impl LibraryState {
    /// An empty library.
    pub fn new() -> (s: LibraryState)
        ensures
            s@.roots.len() == 0,
            s@.media.len() == 0,
            s@.metadata.len() == 0,
            s@.faces.len() == 0,
    {
        let s = LibraryState {
            roots: Vec::new(),
            media_items: Vec::new(),
            metadata: Vec::new(),
            faces: Vec::new(),
        };
        assert(metadata_views(s.metadata@) =~= Seq::<MetadataView>::empty());
        s
    }

    /// Replaces the whole state with loaded records; each root's counts are
    /// recomputed from the loaded items.
    pub fn hydrate(
        &mut self,
        roots: Vec<LibraryRoot>,
        media_items: Vec<MediaItem>,
        metadata: Vec<MediaMetadata>,
        faces: Vec<FaceCandidate>,
    )
        ensures
            final(self)@.roots == recounted(roots@, media_items@),
            final(self)@.media == media_items@,
            final(self)@.metadata == metadata_views(metadata@),
            final(self)@.faces == faces@,
    {
        let mut roots = roots;
        recount_root_counts(&mut roots, &media_items);
        self.roots = roots;
        self.media_items = media_items;
        self.metadata = metadata;
        self.faces = faces;
    }

    /// Adds a folder as a root, given what the file system said of the selected
    /// path (see `normalize_path`). A folder already present gives back its
    /// first root unchanged; a new one gets the next free `root-<n>` id.
    pub fn add_root(&mut self, is_dir: Result<bool, String>, canonical: Result<String, String>) -> (r:
        Result<LibraryRoot, String>)
        requires
            old(self)@.roots.len() < usize::MAX,
        ensures
            ({
                let normalized = normalized_path_spec(
                    match is_dir {
                        Ok(b) => Ok(b),
                        Err(e) => Err(e@),
                    },
                    result_view(canonical),
                );
                match normalized {
                    Err(e) => r matches Err(m) && m@ == e && final(self)@.roots == old(self)@.roots,
                    Ok(path) => {
                        let i = first_index(old(self)@.roots, root_has_path(path));
                        &&& if i < old(self)@.roots.len() {
                            r == Ok::<LibraryRoot, String>(old(self)@.roots[i])
                                && final(self)@.roots == old(self)@.roots
                        } else {
                            r matches Ok(root) && is_new_root(root, old(self)@.roots, path)
                                && final(self)@.roots == old(self)@.roots.push(root)
                        }
                        &&& r matches Ok(root) && root.path@ == path
                        &&& ((forall|j: int|
                            0 <= j < old(self)@.roots.len() ==> old(self)@.roots[j].path@ != path)
                            <==> final(self)@.roots.len() == old(self)@.roots.len() + 1)
                    },
                }
            }),
            final(self)@.media == old(self)@.media,
            final(self)@.metadata == old(self)@.metadata,
            final(self)@.faces == old(self)@.faces,
    {
        let normalized = normalize_path(is_dir, canonical);
        let path = match normalized {
            Err(e) => {
                return Err(e);
            },
            Ok(p) => p,
        };
        let i = find_root_by_path(&self.roots, path.as_str());
        proof {
            lemma_first_index_props(self.roots@, root_has_path(path@));
        }
        if i < self.roots.len() {
            return Ok(self.roots[i].clone());
        }
        let id = next_root_id(&self.roots);
        let root = LibraryRoot {
            id,
            name: display_name(path.as_str()),
            path,
            status: LibraryRootStatus::Ready,
            photo_count: 0,
            video_count: 0,
            media_count: 0,
        };
        self.roots.push(root.clone());
        Ok(root)
    }

    /// Removes the first root with the given id, every item under it (returned,
    /// in order) and the metadata and faces of those items.
    pub fn remove_root(&mut self, root_id: &str) -> (r: Result<Vec<MediaItem>, String>)
        ensures
            match r {
                Err(e) => {
                    &&& !id_taken(old(self)@.roots, root_id@)
                    &&& e@ == root_not_found(root_id@)
                    &&& final(self)@ == old(self)@
                },
                Ok(removed) => {
                    &&& id_taken(old(self)@.roots, root_id@)
                    &&& removed@ == old(self)@.media.filter(in_root(root_id@))
                    &&& final(self)@.roots == old(self)@.roots.filter(root_without_id(root_id@))
                    &&& final(self)@.media == old(self)@.media.filter(outside_root(root_id@))
                    &&& final(self)@.metadata == old(self)@.metadata.filter(
                        metadata_not_in(item_ids(removed@)),
                    )
                    &&& final(self)@.faces == old(self)@.faces.filter(
                        face_not_in(item_ids(removed@)),
                    )
                },
            },
    {
        let i = find_root(&self.roots, root_id);
        if i == self.roots.len() {
            return Err(root_not_found_message(root_id));
        }
        self.roots = roots_without(&self.roots, root_id);
        let removed = filter_by_root(&self.media_items, root_id, true);
        self.media_items = filter_by_root(&self.media_items, root_id, false);
        let removed_ids = ids_of(&removed);
        self.metadata = metadata_without(&self.metadata, removed_ids.as_slice());
        self.faces = faces_without(&self.faces, removed_ids.as_slice());
        Ok(removed)
    }

    /// Records a finished scan: the root becomes ready with the scan's counts,
    /// and its items are replaced by those found (placed after all others).
    pub fn finish_scan(&mut self, result: ScanResult) -> (r: Result<ScanStats, String>)
        ensures
            ({
                let i = first_index(old(self)@.roots, root_has_id(result.stats.root_id@));
                match r {
                    Err(e) => {
                        &&& i == old(self)@.roots.len()
                        &&& e@ == root_not_found(result.stats.root_id@)
                        &&& final(self)@ == old(self)@
                    },
                    Ok(stats) => {
                        &&& i < old(self)@.roots.len()
                        &&& stats == result.stats
                        &&& final(self)@.roots == old(self)@.roots.update(
                            i,
                            scanned_root(old(self)@.roots[i], result.stats),
                        )
                        &&& final(self)@.media == old(self)@.media.filter(
                            outside_root(result.stats.root_id@),
                        ) + result.items@
                        &&& final(self)@.metadata == old(self)@.metadata
                        &&& final(self)@.faces == old(self)@.faces
                    },
                }
            }),
    {
        let stats = result.stats;
        let i = find_root(&self.roots, stats.root_id.as_str());
        if i == self.roots.len() {
            return Err(root_not_found_message(stats.root_id.as_str()));
        }
        let mut root = self.roots[i].clone();
        root.status = LibraryRootStatus::Ready;
        root.photo_count = stats.photo_count;
        root.video_count = stats.video_count;
        root.media_count = stats.media_count;
        self.roots.set(i, root);
        let mut kept = filter_by_root(&self.media_items, stats.root_id.as_str(), false);
        let mut items = result.items;
        kept.append(&mut items);
        self.media_items = kept;
        Ok(stats)
    }

    /// Removes the items whose id is one of `media_ids` (returned, in order),
    /// recounts every root from the items left, and drops the metadata and faces
    /// of those ids. Nothing happens for an empty list.
    pub fn delete_media_items(&mut self, media_ids: &[String]) -> (r: Vec<MediaItem>)
        ensures
            media_ids@.len() == 0 ==> r@.len() == 0 && final(self)@ == old(self)@,
            media_ids@.len() > 0 ==> {
                let ids = strings_view(media_ids@);
                let kept = old(self)@.media.filter(item_not_in(ids));
                &&& r@ == old(self)@.media.filter(item_in(ids))
                &&& final(self)@.media == kept
                &&& kept.len() <= usize::MAX
                &&& final(self)@.roots == recounted(old(self)@.roots, kept)
                &&& final(self)@.metadata == old(self)@.metadata.filter(metadata_not_in(ids))
                &&& final(self)@.faces == old(self)@.faces.filter(face_not_in(ids))
            },
    {
        if media_ids.len() == 0 {
            return Vec::new();
        }
        let removed = filter_by_ids(&self.media_items, media_ids, true);
        self.media_items = filter_by_ids(&self.media_items, media_ids, false);
        let kept_count = self.media_items.len();
        recount_root_counts(&mut self.roots, &self.media_items);
        self.metadata = metadata_without(&self.metadata, media_ids);
        self.faces = faces_without(&self.faces, media_ids);
        removed
    }

    /// Sets the favorite flag of an existing item, adding its metadata record if
    /// it had none, and returns the record.
    pub fn set_favorite(&mut self, media_id: String, favorite: bool) -> (r: Result<
        MediaMetadata,
        String,
    >)
        ensures
            match r {
                Err(e) => {
                    &&& !has_media(old(self)@.media, media_id@)
                    &&& e@ == media_not_found(media_id@)
                    &&& final(self)@ == old(self)@
                },
                Ok(m) => {
                    &&& has_media(old(self)@.media, media_id@)
                    &&& m@ == MetadataView {
                        favorite,
                        ..metadata_lookup(old(self)@.metadata, media_id@)
                    }
                    &&& final(self)@.metadata == metadata_with(old(self)@.metadata, media_id@, m@)
                    &&& final(self)@.roots == old(self)@.roots
                    &&& final(self)@.media == old(self)@.media
                    &&& final(self)@.faces == old(self)@.faces
                },
            },
    {
        let exists = self.ensure_media_exists(media_id.as_str());
        if let Err(e) = exists {
            return Err(e);
        }
        let entry = metadata_entry(&mut self.metadata, media_id);
        entry.favorite = favorite;
        let r = entry.clone();
        Ok(r)
    }

    /// Sets the tags of an existing item to `tags` normalised (trimmed, empty
    /// ones dropped, sorted ignoring ASCII case, the first of tags equal but for
    /// ASCII case kept), adding its metadata record if it had none.
    pub fn set_tags(&mut self, media_id: String, tags: Vec<String>) -> (r: Result<MediaMetadata, String>)
        ensures
            match r {
                Err(e) => {
                    &&& !has_media(old(self)@.media, media_id@)
                    &&& e@ == media_not_found(media_id@)
                    &&& final(self)@ == old(self)@
                },
                Ok(m) => {
                    &&& has_media(old(self)@.media, media_id@)
                    &&& is_tag_normalization(m@.tags, cleaned_tags(strings_view(tags@)))
                    &&& m@ == MetadataView {
                        tags: m@.tags,
                        ..metadata_lookup(old(self)@.metadata, media_id@)
                    }
                    &&& final(self)@.metadata == metadata_with(old(self)@.metadata, media_id@, m@)
                    &&& final(self)@.roots == old(self)@.roots
                    &&& final(self)@.media == old(self)@.media
                    &&& final(self)@.faces == old(self)@.faces
                },
            },
    {
        let exists = self.ensure_media_exists(media_id.as_str());
        if let Err(e) = exists {
            return Err(e);
        }
        let normalized = normalize_tags(&tags);
        let entry = metadata_entry(&mut self.metadata, media_id);
        entry.tags = normalized;
        let r = entry.clone();
        Ok(r)
    }

    /// Adds `tags` to the tags an existing item has (none if it has no record),
    /// then sets them as `set_tags` does.
    pub fn add_tags_for_media(&mut self, media_id: String, tags: Vec<String>) -> (r: Result<
        MediaMetadata,
        String,
    >)
        ensures
            match r {
                Err(e) => {
                    &&& !has_media(old(self)@.media, media_id@)
                    &&& e@ == media_not_found(media_id@)
                    &&& final(self)@ == old(self)@
                },
                Ok(m) => {
                    &&& has_media(old(self)@.media, media_id@)
                    &&& is_tag_normalization(
                        m@.tags,
                        cleaned_tags(
                            metadata_lookup(old(self)@.metadata, media_id@).tags + strings_view(
                                tags@,
                            ),
                        ),
                    )
                    &&& m@ == MetadataView {
                        tags: m@.tags,
                        ..metadata_lookup(old(self)@.metadata, media_id@)
                    }
                    &&& final(self)@.metadata == metadata_with(old(self)@.metadata, media_id@, m@)
                    &&& final(self)@.roots == old(self)@.roots
                    &&& final(self)@.media == old(self)@.media
                    &&& final(self)@.faces == old(self)@.faces
                },
            },
    {
        let current = self.metadata_for_media(vec![media_id.clone()]);
        let mut merged = clone_strings(&current[0].tags);
        let mut extra = tags;
        let ghost extra_view = strings_view(extra@);
        let ghost merged_view = strings_view(merged@);
        merged.append(&mut extra);
        proof {
            assert(strings_view(merged@) =~= merged_view + extra_view);
            assert(current@[0]@ == metadata_lookup(self@.metadata, media_id@));
            assert(merged_view == metadata_lookup(self@.metadata, media_id@).tags);
            assert(extra_view == strings_view(tags@));
        }
        self.set_tags(media_id, merged)
    }

    /// Replaces the faces of an existing item by `detected_faces` (placed after
    /// all others), records their ids in its metadata, and returns them.
    pub fn replace_faces_for_media(
        &mut self,
        media_id: String,
        detected_faces: Vec<FaceCandidate>,
    ) -> (r: Result<Vec<FaceCandidate>, String>)
        ensures
            match r {
                Err(e) => {
                    &&& !has_media(old(self)@.media, media_id@)
                    &&& e@ == media_not_found(media_id@)
                    &&& final(self)@ == old(self)@
                },
                Ok(faces) => {
                    &&& has_media(old(self)@.media, media_id@)
                    &&& faces@ == detected_faces@
                    &&& final(self)@.faces == old(self)@.faces.filter(face_not_of(media_id@))
                        + detected_faces@
                    &&& final(self)@.metadata == metadata_with(
                        old(self)@.metadata,
                        media_id@,
                        MetadataView {
                            face_ids: face_ids(detected_faces@),
                            ..metadata_lookup(old(self)@.metadata, media_id@)
                        },
                    )
                    &&& final(self)@.roots == old(self)@.roots
                    &&& final(self)@.media == old(self)@.media
                },
            },
    {
        let exists = self.ensure_media_exists(media_id.as_str());
        if let Err(e) = exists {
            return Err(e);
        }
        let mut kept = faces_by_media(&self.faces, media_id.as_str(), false);
        let mut added = clone_faces(&detected_faces);
        kept.append(&mut added);
        self.faces = kept;
        let ids = face_id_strings(&detected_faces);
        let entry = metadata_entry(&mut self.metadata, media_id);
        entry.face_ids = ids;
        Ok(detected_faces)
    }

    /// The faces recorded for an existing item, reported with no model to run.
    pub fn analyze_faces(&self, media_id: String) -> (r: Result<FaceAnalysisResult, String>)
        ensures
            match r {
                Err(e) => !has_media(self@.media, media_id@) && e@ == media_not_found(media_id@),
                Ok(result) => {
                    &&& has_media(self@.media, media_id@)
                    &&& result.media_id == media_id
                    &&& result.status == FaceAnalysisStatus::ModelMissing
                    &&& result.message@ == face_model_missing_message()
                    &&& result.faces@ == self@.faces.filter(face_of(media_id@))
                },
            },
    {
        let exists = self.ensure_media_exists(media_id.as_str());
        if let Err(e) = exists {
            return Err(e);
        }
        let faces = faces_by_media(&self.faces, media_id.as_str(), true);
        Ok(
            FaceAnalysisResult {
                media_id,
                status: FaceAnalysisStatus::ModelMissing,
                message: String::from_str(
                    "Face analysis is ready for a local model, but no model bundle is installed yet.",
                ),
                faces,
            },
        )
    }

    /// Names the first face with the given id: the trimmed name, or no name if
    /// trimming leaves nothing. Returns the renamed face.
    pub fn set_face_name(&mut self, face_id: String, name: String) -> (r: Result<
        FaceCandidate,
        String,
    >)
        ensures
            ({
                let i = first_index(old(self)@.faces, face_has_id(face_id@));
                match r {
                    Err(e) => {
                        &&& i == old(self)@.faces.len()
                        &&& e@ == face_not_found(face_id@)
                        &&& final(self)@ == old(self)@
                    },
                    Ok(f) => {
                        &&& i < old(self)@.faces.len()
                        &&& is_renamed_face(old(self)@.faces[i], f, name@)
                        &&& final(self)@.faces == old(self)@.faces.update(i, f)
                        &&& final(self)@.roots == old(self)@.roots
                        &&& final(self)@.media == old(self)@.media
                        &&& final(self)@.metadata == old(self)@.metadata
                    },
                }
            }),
    {
        let i = find_face(&self.faces, face_id.as_str());
        if i == self.faces.len() {
            return Err(face_not_found_message(face_id.as_str()));
        }
        let trimmed_name = trim_string(name.as_str());
        let mut face = self.faces[i].clone();
        face.name = if trimmed_name.as_str().is_empty() {
            None
        } else {
            Some(trimmed_name)
        };
        self.faces.set(i, face.clone());
        Ok(face)
    }

    /// Groups of items that share a content hash, over one root or all roots:
    /// one group per hash held by two or more items, in increasing hash order,
    /// each group's items in a stable sort by path.
    pub fn duplicate_groups(&self, root_id: Option<&str>) -> (r: Vec<DuplicateGroup>)
        ensures
            is_duplicate_grouping(
                r@,
                self@.media.filter(
                    is_dup_candidate(
                        match root_id {
                            Some(s) => Some(s@),
                            None => None,
                        },
                    ),
                ),
            ),
    {
        let cand = duplicate_candidates(&self.media_items, root_id);
        proof {
            let p = is_dup_candidate(
                match root_id {
                    Some(s) => Some(s@),
                    None => None,
                },
            );
            assert forall|i: int| 0 <= i < cand.len() implies (#[trigger] cand@[i]).content_hash is Some by {
                self.media_items@.lemma_filter_pred(p, i);
            }
        }
        group_duplicates(&cand)
    }

    /// All roots, in order.
    pub fn roots(&self) -> (r: Vec<LibraryRoot>)
        ensures
            r@ == self@.roots,
    {
        clone_roots(&self.roots)
    }

    /// Number of roots and the totals of their counts.
    pub fn overview(&self) -> (r: LibraryOverview)
        requires
            total(self@.roots.map_values(|r: LibraryRoot| r.photo_count)) <= u64::MAX,
            total(self@.roots.map_values(|r: LibraryRoot| r.video_count)) <= u64::MAX,
            total(self@.roots.map_values(|r: LibraryRoot| r.media_count)) <= u64::MAX,
        ensures
            r.root_count == self@.roots.len(),
            r.photo_count == total(self@.roots.map_values(|r: LibraryRoot| r.photo_count)),
            r.video_count == total(self@.roots.map_values(|r: LibraryRoot| r.video_count)),
            r.media_count == total(self@.roots.map_values(|r: LibraryRoot| r.media_count)),
    {
        let ghost photos = self.roots@.map_values(|r: LibraryRoot| r.photo_count);
        let ghost videos = self.roots@.map_values(|r: LibraryRoot| r.video_count);
        let ghost all = self.roots@.map_values(|r: LibraryRoot| r.media_count);
        let mut p: u64 = 0;
        let mut v: u64 = 0;
        let mut m: u64 = 0;
        let mut i: usize = 0;
        while i < self.roots.len()
            invariant
                i <= self.roots.len(),
                photos == self.roots@.map_values(|r: LibraryRoot| r.photo_count),
                videos == self.roots@.map_values(|r: LibraryRoot| r.video_count),
                all == self.roots@.map_values(|r: LibraryRoot| r.media_count),
                total(photos) <= u64::MAX,
                total(videos) <= u64::MAX,
                total(all) <= u64::MAX,
                p == total(photos.take(i as int)),
                v == total(videos.take(i as int)),
                m == total(all.take(i as int)),
            decreases self.roots.len() - i,
        {
            proof {
                assert(photos.take(i + 1).drop_last() == photos.take(i as int));
                assert(videos.take(i + 1).drop_last() == videos.take(i as int));
                assert(all.take(i + 1).drop_last() == all.take(i as int));
                lemma_total_prefix(photos, i + 1);
                lemma_total_prefix(videos, i + 1);
                lemma_total_prefix(all, i + 1);
            }
            p = p + self.roots[i].photo_count;
            v = v + self.roots[i].video_count;
            m = m + self.roots[i].media_count;
            i = i + 1;
        }
        proof {
            lemma_take_all(photos);
            lemma_take_all(videos);
            lemma_take_all(all);
        }
        LibraryOverview { root_count: self.roots.len(), photo_count: p, video_count: v, media_count: m }
    }

    /// Marks the first root with the given id as scanning and returns its path.
    pub fn root_path(&mut self, root_id: &str) -> (r: Result<String, String>)
        ensures
            ({
                let i = first_index(old(self)@.roots, root_has_id(root_id@));
                match r {
                    Ok(path) => {
                        &&& i < old(self)@.roots.len()
                        &&& path@ == old(self)@.roots[i].path@
                        &&& final(self)@.roots == old(self)@.roots.update(
                            i,
                            with_status(old(self)@.roots[i], LibraryRootStatus::Scanning),
                        )
                    },
                    Err(e) => {
                        &&& i == old(self)@.roots.len()
                        &&& e@ == root_not_found(root_id@)
                        &&& final(self)@.roots == old(self)@.roots
                    },
                }
            }),
            final(self)@.media == old(self)@.media,
            final(self)@.metadata == old(self)@.metadata,
            final(self)@.faces == old(self)@.faces,
    {
        let i = find_root(&self.roots, root_id);
        if i == self.roots.len() {
            return Err(root_not_found_message(root_id));
        }
        let mut root = self.roots[i].clone();
        root.status = LibraryRootStatus::Scanning;
        let path = root.path.clone();
        self.roots.set(i, root);
        Ok(path)
    }

    /// Marks the first root with the given id as failed; no change if there is none.
    pub fn fail_scan(&mut self, root_id: &str)
        ensures
            ({
                let i = first_index(old(self)@.roots, root_has_id(root_id@));
                final(self)@.roots == if i < old(self)@.roots.len() {
                    old(self)@.roots.update(
                        i,
                        with_status(old(self)@.roots[i], LibraryRootStatus::Error),
                    )
                } else {
                    old(self)@.roots
                }
            }),
            final(self)@.media == old(self)@.media,
            final(self)@.metadata == old(self)@.metadata,
            final(self)@.faces == old(self)@.faces,
    {
        let i = find_root(&self.roots, root_id);
        if i < self.roots.len() {
            let mut root = self.roots[i].clone();
            root.status = LibraryRootStatus::Error;
            self.roots.set(i, root);
        }
    }

    /// Drops every item under the given root.
    pub fn clear_media(&mut self, root_id: &str)
        ensures
            final(self)@.media == old(self)@.media.filter(outside_root(root_id@)),
            final(self)@.roots == old(self)@.roots,
            final(self)@.metadata == old(self)@.metadata,
            final(self)@.faces == old(self)@.faces,
    {
        self.media_items = filter_by_root(&self.media_items, root_id, false);
    }

    /// A page of the items under a root: `offset` items skipped, at most `limit` kept.
    pub fn media(&self, root_id: &str, offset: usize, limit: usize) -> (r: Vec<MediaItem>)
        ensures
            r@ == page(self@.media.filter(in_root(root_id@)), offset as int, limit as int),
    {
        let items = filter_by_root(&self.media_items, root_id, true);
        let n = items.len();
        let start = if offset < n {
            offset
        } else {
            n
        };
        let end = if limit < n - start {
            start + limit
        } else {
            n
        };
        copy_range(&items, start, end)
    }

    /// Number of photos under a root.
    pub fn photo_count_for_root(&self, root_id: &str) -> (n: u64)
        ensures
            n == self@.media.filter(photo_in_root(root_id@)).len(),
    {
        let n = count_items(&self.media_items, root_id, MediaType::Photo);
        assert(of_type_in_root(root_id@, MediaType::Photo) == photo_in_root(root_id@));
        n
    }

    /// The photos under a root, in order.
    pub fn photo_media_for_root(&self, root_id: &str) -> (r: Vec<MediaItem>)
        ensures
            r@ == self@.media.filter(photo_in_root(root_id@)),
    {
        let ghost p = photo_in_root(root_id@);
        let mut r: Vec<MediaItem> = Vec::new();
        let mut i: usize = 0;
        while i < self.media_items.len()
            invariant
                i <= self.media_items.len(),
                p == photo_in_root(root_id@),
                r@ == self.media_items@.take(i as int).filter(p),
            decreases self.media_items.len() - i,
        {
            proof {
                lemma_filter_take_succ(self.media_items@, i as int, p);
            }
            if self.media_items[i].media_type == MediaType::Photo && str_equal(
                self.media_items[i].root_id.as_str(),
                root_id,
            ) {
                r.push(self.media_items[i].clone());
            }
            i = i + 1;
        }
        proof {
            lemma_take_all(self.media_items@);
        }
        r
    }

    /// The items under a root, in order.
    pub fn media_for_root(&self, root_id: &str) -> (r: Vec<MediaItem>)
        ensures
            r@ == self@.media.filter(in_root(root_id@)),
    {
        filter_by_root(&self.media_items, root_id, true)
    }

    /// The items whose id is one of `media_ids`, in library order.
    pub fn media_by_ids(&self, media_ids: &[String]) -> (r: Vec<MediaItem>)
        ensures
            r@ == self@.media.filter(item_in(strings_view(media_ids@))),
    {
        filter_by_ids(&self.media_items, media_ids, true)
    }

    /// The path of the first item with the given id.
    pub fn media_path(&self, media_id: &str) -> (r: Result<String, String>)
        ensures
            ({
                let i = first_index(self@.media, item_has_id(media_id@));
                match r {
                    Ok(path) => i < self@.media.len() && path@ == self@.media[i].path@,
                    Err(e) => !has_media(self@.media, media_id@) && e@ == media_not_found(
                        media_id@,
                    ),
                }
            }),
    {
        let i = find_media(&self.media_items, media_id);
        if i == self.media_items.len() {
            Err(media_not_found_message(media_id))
        } else {
            Ok(self.media_items[i].path.clone())
        }
    }

    /// Succeeds when some item has the given id.
    fn ensure_media_exists(&self, media_id: &str) -> (r: Result<(), String>)
        ensures
            r is Ok <==> has_media(self@.media, media_id@),
            r matches Err(e) ==> e@ == media_not_found(media_id@),
    {
        let i = find_media(&self.media_items, media_id);
        if i == self.media_items.len() {
            Err(media_not_found_message(media_id))
        } else {
            Ok(())
        }
    }

    /// The metadata of each requested item, in request order: its first record,
    /// or a blank one carrying the requested id.
    pub fn metadata_for_media(&self, media_ids: Vec<String>) -> (r: Vec<MediaMetadata>)
        ensures
            r@.len() == media_ids@.len(),
            forall|k: int|
                0 <= k < r@.len() ==> #[trigger] r@[k]@ == metadata_lookup(
                    self@.metadata,
                    media_ids@[k]@,
                ),
    {
        let ghost mv = metadata_views(self.metadata@);
        let mut r: Vec<MediaMetadata> = Vec::new();
        let mut k: usize = 0;
        while k < media_ids.len()
            invariant
                k <= media_ids.len(),
                mv == metadata_views(self.metadata@),
                mv == self@.metadata,
                r@.len() == k,
                forall|j: int|
                    0 <= j < k ==> #[trigger] r@[j]@ == metadata_lookup(mv, media_ids@[j]@),
            decreases media_ids.len() - k,
        {
            let i = find_metadata(&self.metadata, media_ids[k].as_str());
            proof {
                lemma_first_index_props(mv, metadata_of(media_ids@[k as int]@));
            }
            let entry = if i < self.metadata.len() {
                self.metadata[i].clone()
            } else {
                MediaMetadata::new_for(media_ids[k].clone())
            };
            r.push(entry);
            k = k + 1;
        }
        r
    }
}

} // verus!
