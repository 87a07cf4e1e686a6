use moments::inference::inference_file_name;
use moments::library::{LibraryState, ScanResult};
use moments::models::{LibraryRoot, LibraryRootStatus, MediaItem, MediaType, ScanStats};
use moments::storage::{media_type_from_database, media_type_label};

fn item(id: &str, root: &str, path: &str) -> MediaItem {
    MediaItem {
        id: id.to_string(),
        root_id: root.to_string(),
        name: path.to_string(),
        path: path.to_string(),
        media_type: MediaType::Photo,
        content_hash: None,
    }
}

fn two_roots() -> LibraryState {
    let mut state = LibraryState::new();
    let root = |id: &str| LibraryRoot {
        id: id.to_string(),
        name: id.to_string(),
        path: format!("/{id}"),
        status: LibraryRootStatus::Ready,
        photo_count: 0,
        video_count: 0,
        media_count: 0,
    };
    state.hydrate(
        vec![root("root-1"), root("root-2")],
        vec![item("a", "root-1", "/root-1/a.jpg"), item("b", "root-2", "/root-2/b.jpg")],
        vec![],
        vec![],
    );
    state
}

#[test]
fn rescanning_one_root_leaves_the_other() {
    let mut state = two_roots();
    let before: Vec<String> = state.media_for_root("root-2").iter().map(|m| m.id.clone()).collect();
    state
        .finish_scan(ScanResult {
            stats: ScanStats {
                root_id: "root-1".to_string(),
                photo_count: 2,
                video_count: 0,
                media_count: 2,
                skipped_count: 0,
            },
            items: vec![item("n1", "root-1", "/root-1/x.jpg"), item("n2", "root-1", "/root-1/y.jpg")],
        })
        .unwrap();
    let after: Vec<String> = state.media_for_root("root-2").iter().map(|m| m.id.clone()).collect();
    assert_eq!(before, after);
    let scanned: Vec<String> = state.media("root-1", 0, usize::MAX).iter().map(|m| m.id.clone()).collect();
    assert_eq!(scanned, vec!["n1", "n2"]);
}

#[test]
fn removing_one_root_leaves_the_other() {
    let mut state = two_roots();
    state.remove_root("root-2").unwrap();
    assert_eq!(state.media_for_root("root-1").len(), 1);
    assert!(state.media_for_root("root-2").is_empty());
    assert!(state.remove_root("root-2").is_err());
}

#[test]
fn writing_one_items_metadata_keeps_the_others() {
    let mut state = two_roots();
    state.set_tags("b".to_string(), vec!["keep".to_string()]).unwrap();
    state.set_favorite("a".to_string(), true).unwrap();
    let read = state.metadata_for_media(vec!["a".to_string(), "b".to_string()]);
    assert!(read[0].favorite);
    assert!(!read[1].favorite);
    assert_eq!(read[1].tags, vec!["keep"]);
}

#[test]
fn tag_normalisation_gives_one_answer() {
    let mut state = two_roots();
    let first = state
        .set_tags("a".to_string(), vec!["b".to_string(), "A".to_string(), "a".to_string()])
        .unwrap();
    let second = state
        .set_tags("a".to_string(), vec!["b".to_string(), "A".to_string(), "a".to_string()])
        .unwrap();
    assert_eq!(first.tags, second.tags);
    assert_eq!(first.tags, vec!["A", "b"]);
    let again = state.set_tags("a".to_string(), first.tags.clone()).unwrap();
    assert_eq!(again.tags, first.tags);
}

#[test]
fn counts_after_recount_add_up() {
    let mut state = two_roots();
    state.delete_media_items(&["b".to_string()]);
    for root in state.roots() {
        assert_eq!(root.media_count, root.photo_count + root.video_count);
        assert_eq!(root.media_count as usize, state.media_for_root(&root.id).len());
    }
}

#[test]
fn stored_kinds_round_trip() {
    for t in [MediaType::Photo, MediaType::Video] {
        assert_eq!(media_type_from_database(&media_type_label(t)), t);
    }
}

#[test]
fn distinct_keys_give_distinct_cache_names() {
    let names: Vec<String> = [0u64, 1, 16, 255, 256, u64::MAX].iter().map(|k| inference_file_name(*k)).collect();
    for i in 0..names.len() {
        for j in (i + 1)..names.len() {
            assert_ne!(names[i], names[j]);
        }
    }
}

#[test]
fn adding_a_folder_twice_keeps_one_root() {
    let mut state = LibraryState::new();
    let first = state.add_root(Ok(true), Ok("/x".to_string())).unwrap();
    let second = state.add_root(Ok(true), Ok("/x".to_string())).unwrap();
    assert_eq!(first.id, second.id);
    let third = state.add_root(Ok(true), Ok("/y".to_string())).unwrap();
    assert_ne!(third.id, first.id);
    assert_eq!(state.roots().len(), 2);
}
