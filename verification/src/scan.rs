//! Turning the files found under a root into its media items.
use vstd::prelude::*;

use crate::library::ScanResult;
use crate::models::{clone_opt_string, MediaItem, MediaType, ScanStats};
use crate::order::{is_stable_order, key_views, stable_order};
use crate::seqs::{lemma_map_push, lemma_take_all, lemma_take_succ};
use crate::text::{chars_of, decimal, push_decimal};

verus! {

/// The paths of a list of items.
pub open spec fn item_paths(items: Seq<MediaItem>) -> Seq<Seq<char>> {
    items.map_values(|m: MediaItem| m.path@)
}

/// `sorted` is `items` in a stable sort by path: in path order, items with
/// equal paths kept in their input order.
pub open spec fn is_path_sort_of(sorted: Seq<MediaItem>, items: Seq<MediaItem>) -> bool {
    exists|order: Seq<usize>|
        #[trigger] is_stable_order(item_paths(items), order) && sorted == order.map_values(
            |k: usize| items[k as int],
        )
}

/// The characters of each item's path.
fn path_keys(items: &Vec<MediaItem>) -> (keys: Vec<Vec<char>>)
    ensures
        key_views(keys@) == item_paths(items@),
{
    let mut keys: Vec<Vec<char>> = Vec::new();
    let mut i: usize = 0;
    while i < items.len()
        invariant
            i <= items.len(),
            key_views(keys@) == item_paths(items@.take(i as int)),
        decreases items.len() - i,
    {
        let k = chars_of(items[i].path.as_str());
        proof {
            lemma_map_push(keys@, k, |k: Vec<char>| k@);
            lemma_take_succ(items@, i as int);
            lemma_map_push(items@.take(i as int), items@[i as int], |m: MediaItem| m.path@);
        }
        keys.push(k);
        i = i + 1;
    }
    proof {
        lemma_take_all(items@);
    }
    keys
}

/// The items in a stable sort by path (`sort_by` on `path`).
pub fn sort_by_path(items: &Vec<MediaItem>) -> (sorted: Vec<MediaItem>)
    ensures
        is_path_sort_of(sorted@, items@),
{
    let keys = path_keys(items);
    let order = stable_order(&keys);
    let mut sorted: Vec<MediaItem> = Vec::new();
    let mut i: usize = 0;
    while i < order.len()
        invariant
            i <= order.len(),
            is_stable_order(key_views(keys@), order@),
            key_views(keys@) == item_paths(items@),
            items@.len() == keys@.len(),
            sorted@ == order@.take(i as int).map_values(|k: usize| items@[k as int]),
        decreases order.len() - i,
    {
        let k = order[i];
        sorted.push(items[k].clone());
        proof {
            lemma_take_succ(order@, i as int);
            lemma_map_push(order@.take(i as int), k, |k: usize| items@[k as int]);
        }
        i = i + 1;
    }
    proof {
        lemma_take_all(order@);
    }
    sorted
}

/// A file found during a scan that is a photo or a video: its path, display
/// name, kind, and content hash (computed for photos).
pub struct ScannedMedia {
    pub path: String,
    pub name: String,
    pub media_type: MediaType,
    pub content_hash: Option<String>,
}

/// The id of the `n`-th item (counting from 1) of a root: `<root>-media-<n>`.
pub open spec fn media_id_for(root_id: Seq<char>, n: nat) -> Seq<char> {
    root_id + "-media-"@ + decimal(n)
}

/// The item made of the `index`-th found file in path order.
pub open spec fn is_scanned_item(m: MediaItem, root_id: Seq<char>, index: int, found: ScannedMedia) -> bool {
    &&& m.id@ == media_id_for(root_id, (index + 1) as nat)
    &&& m.root_id@ == root_id
    &&& m.name == found.name
    &&& m.path == found.path
    &&& m.media_type == found.media_type
    &&& m.content_hash == if found.media_type == MediaType::Photo {
        found.content_hash
    } else {
        None
    }
}

/// The paths of the found files.
pub open spec fn found_paths(found: Seq<ScannedMedia>) -> Seq<Seq<char>> {
    found.map_values(|f: ScannedMedia| f.path@)
}

/// Number of found files of the given kind.
pub open spec fn found_count(found: Seq<ScannedMedia>, t: MediaType) -> nat {
    found.filter(|f: ScannedMedia| f.media_type == t).len()
}

fn found_path_keys(found: &Vec<ScannedMedia>) -> (keys: Vec<Vec<char>>)
    ensures
        key_views(keys@) == found_paths(found@),
{
    let mut keys: Vec<Vec<char>> = Vec::new();
    let mut i: usize = 0;
    while i < found.len()
        invariant
            i <= found.len(),
            key_views(keys@) == found_paths(found@.take(i as int)),
        decreases found.len() - i,
    {
        let k = chars_of(found[i].path.as_str());
        proof {
            lemma_map_push(keys@, k, |k: Vec<char>| k@);
            lemma_take_succ(found@, i as int);
            lemma_map_push(found@.take(i as int), found@[i as int], |f: ScannedMedia| f.path@);
        }
        keys.push(k);
        i = i + 1;
    }
    proof {
        lemma_take_all(found@);
    }
    keys
}

fn count_found(found: &Vec<ScannedMedia>, t: MediaType) -> (n: u64)
    ensures
        n == found_count(found@, t),
{
    let ghost p = |f: ScannedMedia| f.media_type == t;
    let mut n: u64 = 0;
    let mut i: usize = 0;
    while i < found.len()
        invariant
            i <= found.len(),
            p == (|f: ScannedMedia| f.media_type == t),
            n == found@.take(i as int).filter(p).len(),
            n <= i,
        decreases found.len() - i,
    {
        proof {
            lemma_take_succ(found@, i as int);
            found@.take(i as int).lemma_filter_push(found@[i as int], p);
        }
        if found[i].media_type == t {
            n = n + 1;
        }
        i = i + 1;
    }
    proof {
        lemma_take_all(found@);
    }
    n
}

proof fn lemma_found_count_split(found: Seq<ScannedMedia>)
    ensures
        found_count(found, MediaType::Photo) + found_count(found, MediaType::Video) == found.len(),
    decreases found.len(),
{
    reveal(Seq::filter);
    if found.len() > 0 {
        lemma_found_count_split(found.drop_last());
    }
}

/// The outcome of scanning a root: the found photos and videos sorted by
/// path, numbered `<root>-media-1`, `-2`, ... in that order, with their counts;
/// `skipped_count` is passed through.
pub fn assemble_scan_result(root_id: String, found: Vec<ScannedMedia>, skipped_count: u64) -> (r:
    ScanResult)
    ensures
        r.stats.root_id == root_id,
        r.stats.photo_count == found_count(found@, MediaType::Photo),
        r.stats.video_count == found_count(found@, MediaType::Video),
        r.stats.media_count == found@.len(),
        r.stats.skipped_count == skipped_count,
        r.items@.len() == found@.len(),
        exists|order: Seq<usize>|
            #[trigger] is_stable_order(found_paths(found@), order) && forall|i: int|
                0 <= i < r.items@.len() ==> is_scanned_item(
                    #[trigger] r.items@[i],
                    root_id@,
                    i,
                    found@[order[i] as int],
                ),
{
    let keys = found_path_keys(&found);
    let order = stable_order(&keys);
    let mut items: Vec<MediaItem> = Vec::new();
    let mut i: usize = 0;
    while i < order.len()
        invariant
            i <= order.len(),
            is_stable_order(key_views(keys@), order@),
            key_views(keys@) == found_paths(found@),
            found@.len() == keys@.len(),
            items@.len() == i,
            forall|j: int|
                0 <= j < i ==> is_scanned_item(#[trigger] items@[j], root_id@, j, found@[order@[j] as int]),
        decreases order.len() - i,
    {
        let f = &found[order[i]];
        let mut id = root_id.clone();
        id.append("-media-");
        push_decimal(&mut id, (i + 1) as u64);
        let content_hash = if f.media_type == MediaType::Photo {
            clone_opt_string(&f.content_hash)
        } else {
            None
        };
        let item = MediaItem {
            id,
            root_id: root_id.clone(),
            name: f.name.clone(),
            path: f.path.clone(),
            media_type: f.media_type,
            content_hash,
        };
        assert(is_scanned_item(item, root_id@, i as int, found@[order@[i as int] as int]));
        items.push(item);
        i = i + 1;
    }
    let photo_count = count_found(&found, MediaType::Photo);
    let video_count = count_found(&found, MediaType::Video);
    proof {
        lemma_found_count_split(found@);
    }
    let total = found.len();
    ScanResult {
        stats: ScanStats {
            root_id,
            photo_count,
            video_count,
            media_count: photo_count + video_count,
            skipped_count,
        },
        items,
    }
}

} // verus!
