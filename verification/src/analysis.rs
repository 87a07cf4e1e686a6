//! The decisions of the long-running library tasks whose work the app does
//! outside: analysing every photo of a root with a local model, and settling
//! the library once a scan of a root has ended. The app runs the model or the
//! scan and hands each outcome back here.
use vstd::prelude::*;

use crate::catalog::{folder_analysis_done, folder_analysis_without_model, is_face_scanning, FACE_SCANNING_TASK};
use crate::library::{
    clone_faces, face_ids, face_not_of, has_media, root_has_id, in_root, media_not_found,
    metadata_lookup, metadata_views, metadata_with, outside_root, page, photo_in_root,
    root_not_found, scanned_root, with_status, LibraryState, ScanResult,
};
use crate::models::{
    strings_view, AiModelInfo, FaceAnalysisStatus, FaceCandidate, FolderAnalysisResult,
    LibraryRootStatus, MediaItem, MediaMetadata, MetadataView, ScanStats,
};
use crate::seqs::{first_index, lemma_map_push};
use crate::tags::{cleaned_tags, is_tag_normalization};
use crate::text::decimal;

verus! {

/// What a folder analysis has done so far.
pub ghost struct AnalysisView {
    pub root_id: Seq<char>,
    pub task: Seq<char>,
    pub model: AiModelInfo,
    pub processed_media: u64,
    pub photos: Seq<MediaItem>,
    pub next: nat,
    pub faces: Seq<FaceCandidate>,
    pub metadata: Seq<MetadataView>,
}

/// A folder analysis in progress: the photos of a root to run an installed
/// model on, the next one to process, and what the runs so far gave.
pub struct FolderAnalysis {
    root_id: String,
    task: String,
    model: AiModelInfo,
    processed_media: u64,
    photos: Vec<MediaItem>,
    next: usize,
    faces: Vec<FaceCandidate>,
    metadata: Vec<MediaMetadata>,
}

impl View for FolderAnalysis {
    type V = AnalysisView;

    closed spec fn view(&self) -> AnalysisView {
        AnalysisView {
            root_id: self.root_id@,
            task: self.task@,
            model: self.model,
            processed_media: self.processed_media,
            photos: self.photos@,
            next: self.next as nat,
            faces: self.faces@,
            metadata: metadata_views(self.metadata@),
        }
    }
}

/// How a folder analysis starts.
pub enum AnalysisStart {
    /// No model is installed for the task: this is the whole report.
    Report(FolderAnalysisResult),
    /// The analysis runs over the root's photos.
    Run(FolderAnalysis),
}

/// What the app does next in a folder analysis.
pub enum AnalysisStep {
    /// Run the face detector on this photo and hand back what it found.
    DetectFaces(MediaItem),
    /// Run the image classifier on this photo and hand back its tags.
    Classify(MediaItem),
    /// Every photo has been processed.
    Finished,
}

impl FolderAnalysis {
    /// Starts analysing the photos of a root for a task, with the model that is
    /// installed for it, if any. The number of photos is counted first.
    pub fn begin(state: &LibraryState, root_id: String, task: &str, model: Option<AiModelInfo>) -> (r:
        AnalysisStart)
        ensures
            ({
                let photos = state@.media.filter(photo_in_root(root_id@));
                match model {
                    None => r matches AnalysisStart::Report(report) && {
                        &&& report.root_id == root_id
                        &&& report.task@ == task@
                        &&& report.model_id@.len() == 0
                        &&& report.processed_media == photos.len()
                        &&& report.status == FaceAnalysisStatus::ModelMissing
                        &&& report.message@ == "Install a "@ + task@
                            + " model before running folder analysis."@
                        &&& report.faces@.len() == 0
                        &&& report.metadata@.len() == 0
                    },
                    Some(m) => r matches AnalysisStart::Run(a) && a@ == AnalysisView {
                        root_id: root_id@,
                        task: task@,
                        model: m,
                        processed_media: photos.len() as u64,
                        photos,
                        next: 0,
                        faces: Seq::empty(),
                        metadata: Seq::empty(),
                    },
                }
            }),
    {
        let processed_media = state.photo_count_for_root(root_id.as_str());
        match model {
            None => AnalysisStart::Report(
                folder_analysis_without_model(root_id, task, processed_media),
            ),
            Some(model) => {
                let photos = state.photo_media_for_root(root_id.as_str());
                let a = FolderAnalysis {
                    root_id,
                    task: task.to_owned(),
                    model,
                    processed_media,
                    photos,
                    next: 0,
                    faces: Vec::new(),
                    metadata: Vec::new(),
                };
                assert(metadata_views(a.metadata@) =~= Seq::<MetadataView>::empty());
                AnalysisStart::Run(a)
            },
        }
    }

    /// The next thing to do: run the task's model on the next photo, or finish.
    pub fn next_step(&self) -> (r: AnalysisStep)
        ensures
            self@.next < self@.photos.len() && self@.task == FACE_SCANNING_TASK@ ==> r
                == AnalysisStep::DetectFaces(self@.photos[self@.next as int]),
            self@.next < self@.photos.len() && self@.task != FACE_SCANNING_TASK@ ==> r
                == AnalysisStep::Classify(self@.photos[self@.next as int]),
            self@.next >= self@.photos.len() ==> r == AnalysisStep::Finished,
    {
        if self.next < self.photos.len() {
            let item = self.photos[self.next].clone();
            if is_face_scanning(self.task.as_str()) {
                AnalysisStep::DetectFaces(item)
            } else {
                AnalysisStep::Classify(item)
            }
        } else {
            AnalysisStep::Finished
        }
    }

    /// Takes the faces the detector found in the next photo: they replace that
    /// item's faces in the library and join the faces found so far. Returns them
    /// as stored; fails, changing nothing, if the item is no longer there.
    pub fn record_faces(&mut self, state: &mut LibraryState, detected: Vec<FaceCandidate>) -> (r:
        Result<Vec<FaceCandidate>, String>)
        requires
            old(self)@.next < old(self)@.photos.len(),
        ensures
            ({
                let id = old(self)@.photos[old(self)@.next as int].id@;
                match r {
                    Err(e) => {
                        &&& !has_media(old(state)@.media, id)
                        &&& e@ == media_not_found(id)
                        &&& final(state)@ == old(state)@
                        &&& final(self)@ == old(self)@
                    },
                    Ok(stored) => {
                        &&& has_media(old(state)@.media, id)
                        &&& stored@ == detected@
                        &&& final(self)@ == AnalysisView {
                            next: old(self)@.next + 1,
                            faces: old(self)@.faces + detected@,
                            ..old(self)@
                        }
                        &&& final(state)@.faces == old(state)@.faces.filter(face_not_of(id))
                            + detected@
                        &&& final(state)@.metadata == metadata_with(
                            old(state)@.metadata,
                            id,
                            MetadataView {
                                face_ids: face_ids(detected@),
                                ..metadata_lookup(old(state)@.metadata, id)
                            },
                        )
                        &&& final(state)@.roots == old(state)@.roots
                        &&& final(state)@.media == old(state)@.media
                    },
                }
            }),
    {
        let count = self.photos.len();
        let id = self.photos[self.next].id.clone();
        let stored = state.replace_faces_for_media(id, detected);
        match stored {
            Err(e) => Err(e),
            Ok(stored) => {
                let mut copy = clone_faces(&stored);
                self.faces.append(&mut copy);
                assert(self.next < count);
                self.next = self.next + 1;
                Ok(stored)
            },
        }
    }

    /// Takes the tags the classifier gave the next photo: they are added to that
    /// item's tags in the library, and its updated metadata joins the metadata
    /// gathered so far. Returns that metadata; fails, changing nothing, if the
    /// item is no longer there.
    pub fn record_tags(&mut self, state: &mut LibraryState, tags: Vec<String>) -> (r: Result<
        MediaMetadata,
        String,
    >)
        requires
            old(self)@.next < old(self)@.photos.len(),
        ensures
            ({
                let id = old(self)@.photos[old(self)@.next as int].id@;
                let before = metadata_lookup(old(state)@.metadata, id);
                match r {
                    Err(e) => {
                        &&& !has_media(old(state)@.media, id)
                        &&& e@ == media_not_found(id)
                        &&& final(state)@ == old(state)@
                        &&& final(self)@ == old(self)@
                    },
                    Ok(m) => {
                        &&& has_media(old(state)@.media, id)
                        &&& is_tag_normalization(
                            m@.tags,
                            cleaned_tags(before.tags + strings_view(tags@)),
                        )
                        &&& m@ == MetadataView { tags: m@.tags, ..before }
                        &&& final(self)@ == AnalysisView {
                            next: old(self)@.next + 1,
                            metadata: old(self)@.metadata.push(m@),
                            ..old(self)@
                        }
                        &&& final(state)@.metadata == metadata_with(old(state)@.metadata, id, m@)
                        &&& final(state)@.roots == old(state)@.roots
                        &&& final(state)@.media == old(state)@.media
                        &&& final(state)@.faces == old(state)@.faces
                    },
                }
            }),
    {
        let count = self.photos.len();
        let id = self.photos[self.next].id.clone();
        let entry = state.add_tags_for_media(id, tags);
        match entry {
            Err(e) => Err(e),
            Ok(entry) => {
                let copy = entry.clone();
                proof {
                    lemma_map_push(self.metadata@, copy, |m: MediaMetadata| m@);
                }
                self.metadata.push(copy);
                assert(self.next < count);
                self.next = self.next + 1;
                Ok(entry)
            },
        }
    }

    /// The report of the analysis: the faces or metadata gathered, with the
    /// number of photos counted at the start.
    pub fn finish(self) -> (r: FolderAnalysisResult)
        ensures
            r.root_id@ == self@.root_id,
            r.task@ == self@.task,
            r.model_id == self@.model.id,
            r.processed_media == self@.processed_media,
            r.status == FaceAnalysisStatus::Ready,
            r.message@ == self@.task + " processed "@ + decimal(self@.processed_media as nat)
                + " photos with ONNX Runtime using the "@ + self@.model.accelerator@ + " model."@,
            r.faces@ == self@.faces,
            metadata_views(r.metadata@) == self@.metadata,
    {
        let FolderAnalysis { root_id, task, model, processed_media, photos, next, faces, metadata } =
            self;
        folder_analysis_done(root_id, task.as_str(), &model, processed_media, faces, metadata)
    }
}

/// Settles the library once the scan of a root has ended. A finished scan is
/// recorded as `finish_scan` does, and gives its counts and the root's items as
/// they now stand; a failed scan marks the root failed, drops its items, and
/// its error is passed on.
pub fn settle_scan(state: &mut LibraryState, root_id: &str, outcome: Result<ScanResult, String>) -> (r:
    Result<(ScanStats, Vec<MediaItem>), String>)
    ensures
        match outcome {
            Err(e) => {
                let i = first_index(old(state)@.roots, root_has_id(root_id@));
                &&& r == Err::<(ScanStats, Vec<MediaItem>), String>(e)
                &&& final(state)@.roots == if i < old(state)@.roots.len() {
                    old(state)@.roots.update(
                        i,
                        with_status(old(state)@.roots[i], LibraryRootStatus::Error),
                    )
                } else {
                    old(state)@.roots
                }
                &&& final(state)@.media == old(state)@.media.filter(outside_root(root_id@))
                &&& final(state)@.metadata == old(state)@.metadata
                &&& final(state)@.faces == old(state)@.faces
            },
            Ok(result) => {
                let i = first_index(old(state)@.roots, root_has_id(result.stats.root_id@));
                if i < old(state)@.roots.len() {
                    r matches Ok((stats, items)) && {
                        &&& stats == result.stats
                        &&& final(state)@.roots == old(state)@.roots.update(
                            i,
                            scanned_root(old(state)@.roots[i], result.stats),
                        )
                        &&& final(state)@.media == old(state)@.media.filter(
                            outside_root(result.stats.root_id@),
                        ) + result.items@
                        &&& final(state)@.metadata == old(state)@.metadata
                        &&& final(state)@.faces == old(state)@.faces
                        &&& items@ == page(
                            final(state)@.media.filter(in_root(result.stats.root_id@)),
                            0,
                            usize::MAX as int,
                        )
                    }
                } else {
                    &&& r matches Err(e) && e@ == root_not_found(result.stats.root_id@)
                    &&& final(state)@ == old(state)@
                }
            },
        },
{
    match outcome {
        Ok(result) => {
            let finished = state.finish_scan(result);
            match finished {
                Err(e) => Err(e),
                Ok(stats) => {
                    let items = state.media(stats.root_id.as_str(), 0, usize::MAX);
                    Ok((stats, items))
                },
            }
        },
        Err(e) => {
            state.fail_scan(root_id);
            state.clear_media(root_id);
            Err(e)
        },
    }
}

} // verus!
