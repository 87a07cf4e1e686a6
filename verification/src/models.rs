//! The data records that the library keeps and hands out.
//!
//! Face geometry and confidence are 32-bit floats; here each is held as its
//! IEEE-754 bit pattern (`f32::to_bits`), which the library carries through
//! unchanged and never computes with.
use vstd::prelude::*;

verus! {

/// A copy of a vector of strings with the same contents.
pub fn clone_strings(v: &Vec<String>) -> (r: Vec<String>)
    ensures
        r@ == v@,
{
    let mut r: Vec<String> = Vec::new();
    let mut i: usize = 0;
    while i < v.len()
        invariant
            i <= v.len(),
            r@ == v@.take(i as int),
        decreases v.len() - i,
    {
        r.push(v[i].clone());
        assert(v@.take(i + 1) == v@.take(i as int).push(v@[i as int]));
        i = i + 1;
    }
    assert(v@.take(v.len() as int) == v@);
    r
}

/// A copy of an optional string.
pub fn clone_opt_string(v: &Option<String>) -> (r: Option<String>)
    ensures
        r == *v,
{
    match v {
        Some(s) => Some(s.clone()),
        None => None,
    }
}

/// State of a library root.
#[derive(Clone, Copy, Debug, PartialEq, Eq, Structural)]
pub enum LibraryRootStatus {
    Ready,
    Scanning,
    Error,
}

/// Kind of a media file.
#[derive(Clone, Copy, Debug, PartialEq, Eq, Structural)]
pub enum MediaType {
    Photo,
    Video,
}

/// Outcome of a face analysis.
#[derive(Clone, Copy, Debug, PartialEq, Eq, Structural)]
pub enum FaceAnalysisStatus {
    Ready,
    ModelMissing,
}

/// A folder added to the library.
#[derive(Debug)]
pub struct LibraryRoot {
    pub id: String,
    pub name: String,
    pub path: String,
    pub status: LibraryRootStatus,
    pub photo_count: u64,
    pub video_count: u64,
    pub media_count: u64,
}

impl Clone for LibraryRoot {
    fn clone(&self) -> (r: Self)
        ensures
            r == *self,
    {
        LibraryRoot {
            id: self.id.clone(),
            name: self.name.clone(),
            path: self.path.clone(),
            status: self.status,
            photo_count: self.photo_count,
            video_count: self.video_count,
            media_count: self.media_count,
        }
    }
}

/// A photo or video file found under a root.
#[derive(Debug)]
pub struct MediaItem {
    pub id: String,
    pub root_id: String,
    pub name: String,
    pub path: String,
    pub media_type: MediaType,
    pub content_hash: Option<String>,
}

impl Clone for MediaItem {
    fn clone(&self) -> (r: Self)
        ensures
            r == *self,
    {
        MediaItem {
            id: self.id.clone(),
            root_id: self.root_id.clone(),
            name: self.name.clone(),
            path: self.path.clone(),
            media_type: self.media_type,
            content_hash: clone_opt_string(&self.content_hash),
        }
    }
}

/// Per-item user metadata: favorite flag, tags and detected face ids.
#[derive(Debug)]
pub struct MediaMetadata {
    pub media_id: String,
    pub favorite: bool,
    pub tags: Vec<String>,
    pub face_ids: Vec<String>,
}

/// The meaning of a metadata record: the item's id, the favorite flag, the
/// tags and the face ids, as character sequences.
pub ghost struct MetadataView {
    pub media_id: Seq<char>,
    pub favorite: bool,
    pub tags: Seq<Seq<char>>,
    pub face_ids: Seq<Seq<char>>,
}

/// The character sequences of a list of strings.
pub open spec fn strings_view(v: Seq<String>) -> Seq<Seq<char>> {
    v.map_values(|s: String| s@)
}

impl View for MediaMetadata {
    type V = MetadataView;

    open spec fn view(&self) -> MetadataView {
        MetadataView {
            media_id: self.media_id@,
            favorite: self.favorite,
            tags: strings_view(self.tags@),
            face_ids: strings_view(self.face_ids@),
        }
    }
}

/// The metadata of an item that has none recorded yet.
pub open spec fn blank_metadata(media_id: Seq<char>) -> MetadataView {
    MetadataView { media_id, favorite: false, tags: Seq::empty(), face_ids: Seq::empty() }
}

impl MediaMetadata {
    /// Metadata with nothing set for the given item.
    pub fn new_for(media_id: String) -> (r: MediaMetadata)
        ensures
            r@ == blank_metadata(media_id@),
    {
        let r = MediaMetadata { media_id, favorite: false, tags: Vec::new(), face_ids: Vec::new() };
        assert(strings_view(r.tags@) =~= Seq::<Seq<char>>::empty());
        assert(strings_view(r.face_ids@) =~= Seq::<Seq<char>>::empty());
        r
    }
}

impl Default for MediaMetadata {
    fn default() -> (r: Self)
        ensures
            r@ == blank_metadata(Seq::empty()),
    {
        let r = MediaMetadata {
            media_id: String::new(),
            favorite: false,
            tags: Vec::new(),
            face_ids: Vec::new(),
        };
        assert(strings_view(r.tags@) =~= Seq::<Seq<char>>::empty());
        assert(strings_view(r.face_ids@) =~= Seq::<Seq<char>>::empty());
        r
    }
}

impl Clone for MediaMetadata {
    fn clone(&self) -> (r: Self)
        ensures
            r@ == self@,
    {
        MediaMetadata {
            media_id: self.media_id.clone(),
            favorite: self.favorite,
            tags: clone_strings(&self.tags),
            face_ids: clone_strings(&self.face_ids),
        }
    }
}

/// A face found in a photo. `confidence`, `x`, `y`, `width` and `height` are the
/// bit patterns of the detector's 32-bit float values (`f32::to_bits`): the
/// confidence in `0..=1`, the box relative to the photo's width and height.
#[derive(Debug)]
pub struct FaceCandidate {
    pub id: String,
    pub media_id: String,
    pub name: Option<String>,
    pub confidence: u32,
    pub x: u32,
    pub y: u32,
    pub width: u32,
    pub height: u32,
}

impl Clone for FaceCandidate {
    fn clone(&self) -> (r: Self)
        ensures
            r == *self,
    {
        FaceCandidate {
            id: self.id.clone(),
            media_id: self.media_id.clone(),
            name: clone_opt_string(&self.name),
            confidence: self.confidence,
            x: self.x,
            y: self.y,
            width: self.width,
            height: self.height,
        }
    }
}

/// A named collection of library state.
#[derive(Debug)]
pub struct AppSpace {
    pub id: String,
    pub name: String,
}

/// The known spaces and the one in use.
#[derive(Debug)]
pub struct SpaceCatalog {
    pub current_space_id: String,
    pub spaces: Vec<AppSpace>,
}

/// Result of looking for faces in one item.
#[derive(Debug)]
pub struct FaceAnalysisResult {
    pub media_id: String,
    pub status: FaceAnalysisStatus,
    pub message: String,
    pub faces: Vec<FaceCandidate>,
}

/// Counts from scanning one root.
#[derive(Debug)]
pub struct ScanStats {
    pub root_id: String,
    pub photo_count: u64,
    pub video_count: u64,
    pub media_count: u64,
    pub skipped_count: u64,
}

impl Clone for ScanStats {
    fn clone(&self) -> (r: Self)
        ensures
            r == *self,
    {
        ScanStats {
            root_id: self.root_id.clone(),
            photo_count: self.photo_count,
            video_count: self.video_count,
            media_count: self.media_count,
            skipped_count: self.skipped_count,
        }
    }
}

/// Totals over all roots.
#[derive(Debug)]
pub struct LibraryOverview {
    pub root_count: usize,
    pub photo_count: u64,
    pub video_count: u64,
    pub media_count: u64,
}

/// An analysis model the app knows, and whether it is on disk.
#[derive(Debug)]
pub struct AiModelInfo {
    pub id: String,
    pub name: String,
    pub task: String,
    pub accelerator: String,
    pub description: String,
    pub file_name: String,
    pub download_url: String,
    pub installed: bool,
    pub size_bytes: u64,
}

impl Clone for AiModelInfo {
    fn clone(&self) -> (r: Self)
        ensures
            r == *self,
    {
        AiModelInfo {
            id: self.id.clone(),
            name: self.name.clone(),
            task: self.task.clone(),
            accelerator: self.accelerator.clone(),
            description: self.description.clone(),
            file_name: self.file_name.clone(),
            download_url: self.download_url.clone(),
            installed: self.installed,
            size_bytes: self.size_bytes,
        }
    }
}

/// Result of installing a model.
#[derive(Debug)]
pub struct ModelInstallResult {
    pub model: AiModelInfo,
    pub message: String,
}

/// Result of deleting a model.
#[derive(Debug)]
pub struct ModelDeleteResult {
    pub model: AiModelInfo,
    pub removed_bytes: u64,
    pub message: String,
}

/// Result of analysing all photos of a root.
#[derive(Debug)]
pub struct FolderAnalysisResult {
    pub root_id: String,
    pub task: String,
    pub model_id: String,
    pub processed_media: u64,
    pub status: FaceAnalysisStatus,
    pub message: String,
    pub faces: Vec<FaceCandidate>,
    pub metadata: Vec<MediaMetadata>,
}

/// What clearing the cache removed.
#[derive(Debug)]
pub struct CacheClearResult {
    pub removed_files: u64,
    pub removed_bytes: u64,
}

impl CacheClearResult {
    /// Counts one removed file of `bytes` bytes.
    pub fn count_removed_file(&mut self, bytes: u64)
        requires
            old(self).removed_files < u64::MAX,
            old(self).removed_bytes + bytes <= u64::MAX,
        ensures
            final(self).removed_files == old(self).removed_files + 1,
            final(self).removed_bytes == old(self).removed_bytes + bytes,
    {
        self.removed_files = self.removed_files + 1;
        self.removed_bytes = self.removed_bytes + bytes;
    }
}

/// Sizes and row counts of the library database.
#[derive(Debug)]
pub struct DatabaseStats {
    pub path: String,
    pub size_bytes: u64,
    pub root_count: u64,
    pub media_count: u64,
    pub metadata_count: u64,
    pub favorite_count: u64,
    pub tag_count: u64,
    pub face_count: u64,
}

/// Result of an operation on one root.
#[derive(Debug)]
pub struct FolderOperationResult {
    pub root_id: String,
    pub affected_media: u64,
    pub message: String,
}

/// Result of deleting media files.
#[derive(Debug)]
pub struct MediaDeleteResult {
    pub deleted_media: u64,
    pub failed_paths: Vec<String>,
    pub message: String,
}

/// Items that share one content hash.
#[derive(Debug)]
pub struct DuplicateGroup {
    pub hash: String,
    pub items: Vec<MediaItem>,
}

} // verus!
