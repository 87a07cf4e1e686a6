//! The bookkeeping of a scan while the app walks a root on disk: the folders
//! still to read, breadth first, the photos and videos found, and the entries
//! skipped. The app reads each folder and each photo and reports what it read
//! here.
use std::collections::VecDeque;
use vstd::prelude::*;

use crate::hashing::{content_hash, sha256_digest_of};
use crate::library::ScanResult;
use crate::models::MediaType;
use crate::order::is_stable_order;
use crate::paths::{
    display_name, final_part_kind, follows_dot, has_dotted_final_part, is_display_name,
    is_name_path, media_type_for_extension_spec, media_type_for_path, name_path_kind,
};
use crate::scan::{assemble_scan_result, found_count, found_paths, is_scanned_item, ScannedMedia};
use crate::text::lower_hex;

verus! {

/// Where a walk stands. Folders are whatever the app reads a folder by (`F`).
pub ghost struct WalkView<F> {
    /// The folders queued and not yet handed out to be read, first queued first.
    pub pending: Seq<F>,
    /// The photos and videos found so far, in the order found.
    pub found: Seq<ScannedMedia>,
    /// Unreadable folders and photos, and unsupported files, met so far.
    pub skipped: u64,
}

/// A walk over the folders of a root, each folder held as the app reads it.
#[verifier::reject_recursive_types(F)]
pub struct ScanWalk<F> {
    pending: VecDeque<F>,
    found: Vec<ScannedMedia>,
    skipped: u64,
}

impl<F> View for ScanWalk<F> {
    type V = WalkView<F>;

    closed spec fn view(&self) -> WalkView<F> {
        WalkView { pending: self.pending@, found: self.found@, skipped: self.skipped }
    }
}

/// What was made of one entry of a folder.
pub enum EntryStep {
    /// A folder: queued to be read after those already queued.
    Queued,
    /// A photo: its contents are to be read and handed to `add_photo`, or
    /// `photo_unreadable` called when they cannot be read.
    ReadPhoto,
    /// A video: recorded as found.
    Recorded,
    /// Neither a folder nor a supported file: counted as skipped.
    Skipped,
}

/// The kind a path is given by some extension the path holds after a `.`
/// (none when the path has no extension).
pub open spec fn kind_by_extension(path: Seq<char>, kind: Option<MediaType>) -> bool {
    exists|e: Option<Seq<char>>|
        kind == media_type_for_extension_spec(e) && (e matches Some(x) ==> follows_dot(path, x))
}

/// The kind an entry step gives a file.
pub open spec fn step_kind(step: EntryStep) -> Option<MediaType> {
    match step {
        EntryStep::ReadPhoto => Some(MediaType::Photo),
        EntryStep::Recorded => Some(MediaType::Video),
        _ => None,
    }
}

/// `after` is `before` with one more file found: at `path`, of the given kind
/// and hash, named as `display_name` names it.
pub open spec fn is_found_as<F>(
    after: WalkView<F>,
    before: WalkView<F>,
    path: String,
    kind: MediaType,
    content_hash: Option<String>,
) -> bool {
    &&& after.found.len() == before.found.len() + 1
    &&& after.found == before.found.push(after.found.last())
    &&& after.found.last().path == path
    &&& is_display_name(after.found.last().name@, path@)
    &&& after.found.last().media_type == kind
    &&& after.found.last().content_hash == content_hash
    &&& after.pending == before.pending
    &&& after.skipped == before.skipped
}

impl<F> ScanWalk<F> {
    /// A walk that starts at the root's folder.
    pub fn new(root: F) -> (w: ScanWalk<F>)
        ensures
            w@ == (WalkView::<F> { pending: seq![root], found: Seq::empty(), skipped: 0 }),
    {
        let mut pending: VecDeque<F> = VecDeque::new();
        pending.push_back(root);
        let w = ScanWalk { pending, found: Vec::new(), skipped: 0 };
        assert(w.pending@ =~= seq![root]);
        w
    }

    /// The entries skipped so far.
    pub fn skipped_count(&self) -> (n: u64)
        ensures
            n == self@.skipped,
    {
        self.skipped
    }

    /// The next folder to read, first queued first; none when all have been read.
    pub fn next_folder(&mut self) -> (r: Option<F>)
        ensures
            old(self)@.pending.len() > 0 ==> (r matches Some(p) && p == old(self)@.pending[0]
                && final(self)@ == (WalkView::<F> {
                pending: old(self)@.pending.drop_first(),
                ..old(self)@
            })),
            old(self)@.pending.len() == 0 ==> r is None && final(self)@ == old(self)@,
    {
        let ghost before = self.pending@;
        let r = self.pending.pop_front();
        proof {
            if before.len() > 0 {
                assert(self.pending@ =~= before.drop_first());
            }
        }
        r
    }

    /// Counts a folder that could not be read as skipped.
    pub fn folder_unreadable(&mut self)
        requires
            old(self)@.skipped < u64::MAX,
        ensures
            final(self)@ == (WalkView::<F> { skipped: (old(self)@.skipped + 1) as u64, ..old(self)@ }),
    {
        self.skipped = self.skipped + 1;
    }

    /// Takes one entry of a folder, at `path`; `folder` is the entry as a
    /// folder to read, when it is one. A folder is queued; a photo is to be
    /// read; a video is recorded; anything else is skipped. Photos and videos
    /// are told apart by the extension of the path, as `media_type_for_path`
    /// does.
    pub fn entry(&mut self, path: String, folder: Option<F>) -> (r: EntryStep)
        requires
            old(self)@.skipped < u64::MAX,
        ensures
            match folder {
                Some(f) => r == EntryStep::Queued && final(self)@ == (WalkView::<F> {
                    pending: old(self)@.pending.push(f),
                    ..old(self)@
                }),
                None => r != EntryStep::Queued,
            },
            folder is None ==> kind_by_extension(path@, step_kind(r)),
            folder is None && is_name_path(path@) ==> step_kind(r) == name_path_kind(path@),
            folder is None && has_dotted_final_part(path@) ==> step_kind(r) == final_part_kind(path@),
            r == EntryStep::ReadPhoto ==> final(self)@ == old(self)@,
            r == EntryStep::Skipped ==> final(self)@ == (WalkView::<F> {
                skipped: (old(self)@.skipped + 1) as u64,
                ..old(self)@
            }),
            r == EntryStep::Recorded ==> is_found_as(
                final(self)@,
                old(self)@,
                path,
                MediaType::Video,
                None,
            ),
    {
        if let Some(f) = folder {
            self.pending.push_back(f);
            return EntryStep::Queued;
        }
        match media_type_for_path(path.as_str()) {
            Some(MediaType::Photo) => EntryStep::ReadPhoto,
            Some(MediaType::Video) => {
                let name = display_name(path.as_str());
                self.found.push(
                    ScannedMedia { path, name, media_type: MediaType::Video, content_hash: None },
                );
                EntryStep::Recorded
            },
            None => {
                self.skipped = self.skipped + 1;
                EntryStep::Skipped
            },
        }
    }

    /// Records a photo, given its contents: its content hash is the SHA-256
    /// of those bytes in lowercase hex.
    pub fn add_photo(&mut self, path: String, contents: &[u8])
        ensures
            is_found_as(
                final(self)@,
                old(self)@,
                path,
                MediaType::Photo,
                final(self)@.found.last().content_hash,
            ),
            final(self)@.found.last().content_hash matches Some(h) && h@ == lower_hex(
                sha256_digest_of(contents@),
            ),
    {
        let name = display_name(path.as_str());
        let hash = content_hash(contents);
        self.found.push(
            ScannedMedia { path, name, media_type: MediaType::Photo, content_hash: Some(hash) },
        );
    }

    /// Counts a photo whose contents could not be read as skipped.
    pub fn photo_unreadable(&mut self)
        requires
            old(self)@.skipped < u64::MAX,
        ensures
            final(self)@ == (WalkView::<F> { skipped: (old(self)@.skipped + 1) as u64, ..old(self)@ }),
    {
        self.skipped = self.skipped + 1;
    }

    /// The outcome of the walk (see `assemble_scan_result`).
    pub fn finish(self, root_id: String) -> (r: ScanResult)
        ensures
            r.stats.root_id == root_id,
            r.stats.photo_count == found_count(self@.found, MediaType::Photo),
            r.stats.video_count == found_count(self@.found, MediaType::Video),
            r.stats.media_count == self@.found.len(),
            r.stats.skipped_count == self@.skipped,
            r.items@.len() == self@.found.len(),
            exists|order: Seq<usize>|
                #[trigger] is_stable_order(found_paths(self@.found), order) && forall|i: int|
                    0 <= i < r.items@.len() ==> is_scanned_item(
                        #[trigger] r.items@[i],
                        root_id@,
                        i,
                        self@.found[order[i] as int],
                    ),
    {
        let ScanWalk { found, skipped, .. } = self;
        assemble_scan_result(root_id, found, skipped)
    }
}

} // verus!
