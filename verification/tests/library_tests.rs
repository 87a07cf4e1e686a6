use moments::library::{next_root_id, normalize_path, recount_root_counts, LibraryState, ScanResult};
use moments::models::{
    FaceCandidate, LibraryRoot, LibraryRootStatus, MediaItem, MediaMetadata, MediaType, ScanStats,
};

fn item(id: &str, root: &str, path: &str, media_type: MediaType, hash: Option<&str>) -> MediaItem {
    MediaItem {
        id: id.to_string(),
        root_id: root.to_string(),
        name: path.rsplit('/').next().unwrap().to_string(),
        path: path.to_string(),
        media_type,
        content_hash: hash.map(|h| h.to_string()),
    }
}

fn root(id: &str, path: &str) -> LibraryRoot {
    LibraryRoot {
        id: id.to_string(),
        name: path.rsplit('/').next().unwrap().to_string(),
        path: path.to_string(),
        status: LibraryRootStatus::Ready,
        photo_count: 0,
        video_count: 0,
        media_count: 0,
    }
}

fn face(id: &str, media_id: &str) -> FaceCandidate {
    FaceCandidate {
        id: id.to_string(),
        media_id: media_id.to_string(),
        name: None,
        confidence: 0.9f32.to_bits(),
        x: 0.1f32.to_bits(),
        y: 0.2f32.to_bits(),
        width: 0.3f32.to_bits(),
        height: 0.4f32.to_bits(),
    }
}

fn scan(root_id: &str, items: Vec<MediaItem>) -> ScanResult {
    let photos = items.iter().filter(|i| i.media_type == MediaType::Photo).count() as u64;
    let videos = items.len() as u64 - photos;
    ScanResult {
        stats: ScanStats {
            root_id: root_id.to_string(),
            photo_count: photos,
            video_count: videos,
            media_count: photos + videos,
            skipped_count: 0,
        },
        items,
    }
}

/// Two roots: root-1 with two photos and a video, root-2 with one photo.
fn sample_library() -> LibraryState {
    let mut state = LibraryState::new();
    state.hydrate(
        vec![root("root-1", "/photos/trip"), root("root-2", "/photos/home")],
        vec![
            item("root-1-media-1", "root-1", "/photos/trip/a.jpg", MediaType::Photo, Some("h1")),
            item("root-1-media-2", "root-1", "/photos/trip/b.jpg", MediaType::Photo, Some("h1")),
            item("root-1-media-3", "root-1", "/photos/trip/c.mp4", MediaType::Video, None),
            item("root-2-media-1", "root-2", "/photos/home/d.png", MediaType::Photo, Some("h2")),
        ],
        vec![],
        vec![face("root-1-media-1-face-1", "root-1-media-1")],
    );
    state
}

#[test]
fn hydrate_recounts_roots_from_items() {
    let state = sample_library();
    let roots = state.roots();
    assert_eq!(roots.len(), 2);
    assert_eq!((roots[0].photo_count, roots[0].video_count, roots[0].media_count), (2, 1, 3));
    assert_eq!((roots[1].photo_count, roots[1].video_count, roots[1].media_count), (1, 0, 1));
}

#[test]
fn overview_sums_root_counts() {
    let state = sample_library();
    let overview = state.overview();
    assert_eq!(overview.root_count, 2);
    assert_eq!(overview.photo_count, 3);
    assert_eq!(overview.video_count, 1);
    assert_eq!(overview.media_count, 4);
}

#[test]
fn add_root_creates_next_id_and_finds_existing_folder() {
    let mut state = LibraryState::new();
    let first = state.add_root(Ok(true), Ok("/photos/trip".to_string())).unwrap();
    assert_eq!(first.id, "root-1");
    assert_eq!(first.name, "trip");
    assert_eq!(first.path, "/photos/trip");
    assert_eq!(first.status, LibraryRootStatus::Ready);
    assert_eq!(first.media_count, 0);
    let second = state.add_root(Ok(true), Ok("/photos/home".to_string())).unwrap();
    assert_eq!(second.id, "root-2");
    let again = state.add_root(Ok(true), Ok("/photos/trip".to_string())).unwrap();
    assert_eq!(again.id, "root-1");
    assert_eq!(state.roots().len(), 2);
}

#[test]
fn add_root_reports_folder_errors() {
    let mut state = LibraryState::new();
    let unavailable = state.add_root(Err("No such file or directory".to_string()), Ok(String::new()));
    assert_eq!(unavailable.unwrap_err(), "folder is unavailable: No such file or directory");
    let not_folder = state.add_root(Ok(false), Ok("/photos/a.jpg".to_string()));
    assert_eq!(not_folder.unwrap_err(), "selected path is not a folder");
    let unresolved = state.add_root(Ok(true), Err("denied".to_string()));
    assert_eq!(unresolved.unwrap_err(), "failed to resolve folder path: denied");
    assert!(state.roots().is_empty());
}

#[test]
fn normalize_path_passes_canonical_folder_through() {
    assert_eq!(normalize_path(Ok(true), Ok("/a/b".to_string())).unwrap(), "/a/b");
    assert_eq!(
        normalize_path(Ok(false), Ok("/a/b".to_string())).unwrap_err(),
        "selected path is not a folder"
    );
}

#[test]
fn next_root_id_takes_first_free_number() {
    let roots = vec![root("root-1", "/a"), root("root-3", "/c")];
    assert_eq!(next_root_id(&roots), "root-2");
    let roots = vec![root("root-2", "/b"), root("root-1", "/a")];
    assert_eq!(next_root_id(&roots), "root-3");
    assert_eq!(next_root_id(&vec![]), "root-1");
}

#[test]
fn recount_root_counts_counts_photos_and_videos() {
    let mut roots = vec![root("root-1", "/a"), root("root-9", "/z")];
    let media = vec![
        item("m1", "root-1", "/a/1.jpg", MediaType::Photo, None),
        item("m2", "root-1", "/a/2.mov", MediaType::Video, None),
        item("m3", "root-1", "/a/3.mov", MediaType::Video, None),
    ];
    recount_root_counts(&mut roots, &media);
    assert_eq!((roots[0].photo_count, roots[0].video_count, roots[0].media_count), (1, 2, 3));
    assert_eq!((roots[1].photo_count, roots[1].video_count, roots[1].media_count), (0, 0, 0));
}

#[test]
fn remove_root_drops_its_items_metadata_and_faces() {
    let mut state = sample_library();
    state.set_favorite("root-1-media-1".to_string(), true).unwrap();
    state.set_favorite("root-2-media-1".to_string(), true).unwrap();
    let removed = state.remove_root("root-1").unwrap();
    let removed_ids: Vec<&str> = removed.iter().map(|m| m.id.as_str()).collect();
    assert_eq!(removed_ids, vec!["root-1-media-1", "root-1-media-2", "root-1-media-3"]);
    assert_eq!(state.roots().len(), 1);
    assert_eq!(state.roots()[0].id, "root-2");
    assert!(state.media_for_root("root-1").is_empty());
    assert_eq!(state.media_for_root("root-2").len(), 1);
    let metadata = state.metadata_for_media(vec!["root-1-media-1".to_string(), "root-2-media-1".to_string()]);
    assert!(!metadata[0].favorite);
    assert!(metadata[1].favorite);
    assert_eq!(state.analyze_faces("root-2-media-1".to_string()).unwrap().faces.len(), 0);
}

#[test]
fn remove_unknown_root_is_an_error() {
    let mut state = sample_library();
    assert_eq!(state.remove_root("root-7").unwrap_err(), "library root 'root-7' was not found");
    assert_eq!(state.roots().len(), 2);
}

#[test]
fn finish_scan_replaces_only_that_roots_items() {
    let mut state = sample_library();
    let path = state.root_path("root-1").unwrap();
    assert_eq!(path, "/photos/trip");
    assert_eq!(state.roots()[0].status, LibraryRootStatus::Scanning);
    let stats = state
        .finish_scan(scan(
            "root-1",
            vec![item("root-1-media-1", "root-1", "/photos/trip/z.jpg", MediaType::Photo, Some("h9"))],
        ))
        .unwrap();
    assert_eq!(stats.media_count, 1);
    let roots = state.roots();
    assert_eq!(roots[0].status, LibraryRootStatus::Ready);
    assert_eq!((roots[0].photo_count, roots[0].video_count, roots[0].media_count), (1, 0, 1));
    let items = state.media("root-1", 0, usize::MAX);
    assert_eq!(items.len(), 1);
    assert_eq!(items[0].path, "/photos/trip/z.jpg");
    assert_eq!(state.media_for_root("root-2").len(), 1);
}

#[test]
fn finish_scan_of_unknown_root_changes_nothing() {
    let mut state = sample_library();
    let result = state.finish_scan(scan("root-5", vec![]));
    assert_eq!(result.unwrap_err(), "library root 'root-5' was not found");
    assert_eq!(state.media_for_root("root-1").len(), 3);
}

#[test]
fn fail_scan_and_clear_media() {
    let mut state = sample_library();
    state.fail_scan("root-2");
    assert_eq!(state.roots()[1].status, LibraryRootStatus::Error);
    state.fail_scan("root-8");
    state.clear_media("root-2");
    assert!(state.media_for_root("root-2").is_empty());
    assert_eq!(state.media_for_root("root-1").len(), 3);
}

#[test]
fn media_pages_skip_and_take() {
    let state = sample_library();
    let page = state.media("root-1", 1, 1);
    assert_eq!(page.len(), 1);
    assert_eq!(page[0].id, "root-1-media-2");
    assert_eq!(state.media("root-1", 2, 10).len(), 1);
    assert!(state.media("root-1", 5, 10).is_empty());
    assert!(state.media("root-1", 0, 0).is_empty());
    let first = state.media("root-1", 0, 2);
    let second = state.media("root-1", 2, 2);
    let all = state.media("root-1", 0, 4);
    let joined: Vec<String> = first.iter().chain(second.iter()).map(|m| m.id.clone()).collect();
    let whole: Vec<String> = all.iter().map(|m| m.id.clone()).collect();
    assert_eq!(joined, whole);
}

#[test]
fn photo_queries_keep_only_photos_of_the_root() {
    let state = sample_library();
    assert_eq!(state.photo_count_for_root("root-1"), 2);
    let photos = state.photo_media_for_root("root-1");
    assert_eq!(photos.len(), 2);
    assert!(photos.iter().all(|m| m.media_type == MediaType::Photo));
    assert_eq!(state.photo_count_for_root("root-3"), 0);
}

#[test]
fn media_by_ids_keeps_library_order() {
    let state = sample_library();
    let found = state.media_by_ids(&["root-2-media-1".to_string(), "root-1-media-2".to_string()]);
    let ids: Vec<&str> = found.iter().map(|m| m.id.as_str()).collect();
    assert_eq!(ids, vec!["root-1-media-2", "root-2-media-1"]);
}

#[test]
fn media_path_finds_item_or_reports_missing() {
    let state = sample_library();
    assert_eq!(state.media_path("root-2-media-1").unwrap(), "/photos/home/d.png");
    assert_eq!(state.media_path("nope").unwrap_err(), "media item 'nope' was not found");
}

#[test]
fn favorite_reads_back() {
    let mut state = sample_library();
    let entry = state.set_favorite("root-1-media-2".to_string(), true).unwrap();
    assert!(entry.favorite);
    assert_eq!(entry.media_id, "root-1-media-2");
    let read = state.metadata_for_media(vec!["root-1-media-2".to_string()]);
    assert!(read[0].favorite);
    let other = state.metadata_for_media(vec!["root-1-media-1".to_string()]);
    assert!(!other[0].favorite);
    let unset = state.set_favorite("root-1-media-2".to_string(), false).unwrap();
    assert!(!unset.favorite);
}

#[test]
fn favorite_of_unknown_item_is_an_error() {
    let mut state = sample_library();
    assert_eq!(
        state.set_favorite("ghost".to_string(), true).unwrap_err(),
        "media item 'ghost' was not found"
    );
}

#[test]
fn set_tags_normalises_and_reads_back() {
    let mut state = sample_library();
    let tags = vec![
        "  Beach ".to_string(),
        "sunset".to_string(),
        "".to_string(),
        "beach".to_string(),
        "Apple".to_string(),
        "   ".to_string(),
    ];
    let entry = state.set_tags("root-1-media-1".to_string(), tags).unwrap();
    assert_eq!(entry.tags, vec!["Apple", "Beach", "sunset"]);
    let read = state.metadata_for_media(vec!["root-1-media-1".to_string()]);
    assert_eq!(read[0].tags, vec!["Apple", "Beach", "sunset"]);
    let again = state.set_tags("root-1-media-1".to_string(), read[0].tags.clone()).unwrap();
    assert_eq!(again.tags, vec!["Apple", "Beach", "sunset"]);
}

#[test]
fn set_tags_keeps_favorite() {
    let mut state = sample_library();
    state.set_favorite("root-1-media-1".to_string(), true).unwrap();
    let entry = state.set_tags("root-1-media-1".to_string(), vec!["x".to_string()]).unwrap();
    assert!(entry.favorite);
    assert_eq!(entry.tags, vec!["x"]);
}

#[test]
fn add_tags_merges_with_existing() {
    let mut state = sample_library();
    state.set_tags("root-1-media-1".to_string(), vec!["zoo".to_string(), "Cat".to_string()]).unwrap();
    let entry = state
        .add_tags_for_media("root-1-media-1".to_string(), vec!["cat".to_string(), "ant".to_string()])
        .unwrap();
    assert_eq!(entry.tags, vec!["ant", "Cat", "zoo"]);
}

#[test]
fn metadata_for_unknown_items_is_blank() {
    let state = sample_library();
    let read = state.metadata_for_media(vec!["none".to_string()]);
    assert_eq!(read.len(), 1);
    assert_eq!(read[0].media_id, "none");
    assert!(!read[0].favorite);
    assert!(read[0].tags.is_empty());
    assert!(read[0].face_ids.is_empty());
}

#[test]
fn replace_faces_records_face_ids() {
    let mut state = sample_library();
    let stored = state
        .replace_faces_for_media(
            "root-1-media-1".to_string(),
            vec![face("root-1-media-1-face-1", "root-1-media-1"), face("root-1-media-1-face-2", "root-1-media-1")],
        )
        .unwrap();
    assert_eq!(stored.len(), 2);
    let analysis = state.analyze_faces("root-1-media-1".to_string()).unwrap();
    assert_eq!(analysis.faces.len(), 2);
    let read = state.metadata_for_media(vec!["root-1-media-1".to_string()]);
    assert_eq!(read[0].face_ids, vec!["root-1-media-1-face-1", "root-1-media-1-face-2"]);
}

#[test]
fn analyze_faces_reports_model_missing() {
    let state = sample_library();
    let result = state.analyze_faces("root-1-media-1".to_string()).unwrap();
    assert_eq!(result.status, moments::models::FaceAnalysisStatus::ModelMissing);
    assert_eq!(
        result.message,
        "Face analysis is ready for a local model, but no model bundle is installed yet."
    );
    assert_eq!(result.faces.len(), 1);
    assert_eq!(
        state.analyze_faces("zzz".to_string()).unwrap_err(),
        "media item 'zzz' was not found"
    );
}

#[test]
fn set_face_name_trims_or_clears() {
    let mut state = sample_library();
    let named = state.set_face_name("root-1-media-1-face-1".to_string(), "  Ada  ".to_string()).unwrap();
    assert_eq!(named.name.as_deref(), Some("Ada"));
    assert_eq!(named.confidence, 0.9f32.to_bits());
    let cleared = state.set_face_name("root-1-media-1-face-1".to_string(), "   ".to_string()).unwrap();
    assert_eq!(cleared.name, None);
    assert_eq!(
        state.set_face_name("missing".to_string(), "x".to_string()).unwrap_err(),
        "face 'missing' was not found"
    );
}

#[test]
fn delete_media_items_recounts_and_forgets() {
    let mut state = sample_library();
    state.set_favorite("root-1-media-1".to_string(), true).unwrap();
    let removed = state.delete_media_items(&["root-1-media-1".to_string(), "unknown".to_string()]);
    assert_eq!(removed.len(), 1);
    assert_eq!(removed[0].id, "root-1-media-1");
    let roots = state.roots();
    assert_eq!((roots[0].photo_count, roots[0].video_count, roots[0].media_count), (1, 1, 2));
    let read = state.metadata_for_media(vec!["root-1-media-1".to_string()]);
    assert!(!read[0].favorite);
    assert!(state.analyze_faces("root-1-media-1".to_string()).is_err());
}

#[test]
fn delete_nothing_changes_nothing() {
    let mut state = sample_library();
    assert!(state.delete_media_items(&[]).is_empty());
    assert_eq!(state.media_for_root("root-1").len(), 3);
}

#[test]
fn duplicate_groups_by_hash() {
    let state = sample_library();
    let groups = state.duplicate_groups(None);
    assert_eq!(groups.len(), 1);
    assert_eq!(groups[0].hash, "h1");
    let paths: Vec<&str> = groups[0].items.iter().map(|m| m.path.as_str()).collect();
    assert_eq!(paths, vec!["/photos/trip/a.jpg", "/photos/trip/b.jpg"]);
    assert!(state.duplicate_groups(Some("root-2")).is_empty());
    assert_eq!(state.duplicate_groups(Some("root-1")).len(), 1);
}

#[test]
fn duplicate_groups_sorted_by_hash_and_path() {
    let mut state = LibraryState::new();
    state.hydrate(
        vec![root("r", "/r")],
        vec![
            item("1", "r", "/r/z.jpg", MediaType::Photo, Some("bb")),
            item("2", "r", "/r/y.jpg", MediaType::Photo, Some("aa")),
            item("3", "r", "/r/x.jpg", MediaType::Photo, Some("bb")),
            item("4", "r", "/r/w.jpg", MediaType::Photo, Some("aa")),
            item("5", "r", "/r/v.jpg", MediaType::Photo, Some("cc")),
            item("6", "r", "/r/u.mp4", MediaType::Video, None),
        ],
        vec![MediaMetadata { media_id: "1".to_string(), favorite: true, tags: vec![], face_ids: vec![] }],
        vec![],
    );
    let groups = state.duplicate_groups(None);
    let hashes: Vec<&str> = groups.iter().map(|g| g.hash.as_str()).collect();
    assert_eq!(hashes, vec!["aa", "bb"]);
    let first: Vec<&str> = groups[0].items.iter().map(|m| m.path.as_str()).collect();
    assert_eq!(first, vec!["/r/w.jpg", "/r/y.jpg"]);
    let second: Vec<&str> = groups[1].items.iter().map(|m| m.path.as_str()).collect();
    assert_eq!(second, vec!["/r/x.jpg", "/r/z.jpg"]);
}
