use moments::models::MediaType;
use moments::paths::{
    display_name, display_name_from, image_extension_supported, is_supported_image,
    is_supported_video, media_type_for_extension, media_type_for_path, video_extension_supported,
};
use moments::scan::{assemble_scan_result, sort_by_path, ScannedMedia};
use moments::walk::{EntryStep, ScanWalk};

fn found(path: &str, media_type: MediaType, hash: Option<&str>) -> ScannedMedia {
    ScannedMedia {
        path: path.to_string(),
        name: display_name(path),
        media_type,
        content_hash: hash.map(|h| h.to_string()),
    }
}

#[test]
fn scan_result_sorts_numbers_and_counts() {
    let result = assemble_scan_result(
        "root-1".to_string(),
        vec![
            found("/p/c.jpg", MediaType::Photo, Some("hc")),
            found("/p/a.mp4", MediaType::Video, None),
            found("/p/b.png", MediaType::Photo, Some("hb")),
        ],
        4,
    );
    assert_eq!(result.stats.root_id, "root-1");
    assert_eq!(result.stats.photo_count, 2);
    assert_eq!(result.stats.video_count, 1);
    assert_eq!(result.stats.media_count, 3);
    assert_eq!(result.stats.skipped_count, 4);
    let ids: Vec<&str> = result.items.iter().map(|m| m.id.as_str()).collect();
    assert_eq!(ids, vec!["root-1-media-1", "root-1-media-2", "root-1-media-3"]);
    let paths: Vec<&str> = result.items.iter().map(|m| m.path.as_str()).collect();
    assert_eq!(paths, vec!["/p/a.mp4", "/p/b.png", "/p/c.jpg"]);
    assert!(result.items.iter().all(|m| m.root_id == "root-1"));
    assert_eq!(result.items[0].content_hash, None);
    assert_eq!(result.items[1].content_hash.as_deref(), Some("hb"));
    assert_eq!(result.items[2].name, "c.jpg");
}

#[test]
fn scan_result_of_nothing() {
    let result = assemble_scan_result("root-2".to_string(), vec![], 0);
    assert_eq!(result.stats.media_count, 0);
    assert!(result.items.is_empty());
}

#[test]
fn videos_carry_no_hash() {
    let result = assemble_scan_result(
        "r".to_string(),
        vec![found("/v/x.mov", MediaType::Video, Some("ignored"))],
        0,
    );
    assert_eq!(result.items[0].content_hash, None);
}

#[test]
fn scan_sort_is_by_code_point_and_stable() {
    let result = assemble_scan_result(
        "r".to_string(),
        vec![
            found("/p/b.jpg", MediaType::Photo, Some("1")),
            found("/p/B.jpg", MediaType::Photo, Some("2")),
            found("/p/b.jpg", MediaType::Photo, Some("3")),
        ],
        0,
    );
    let hashes: Vec<&str> = result.items.iter().map(|m| m.content_hash.as_deref().unwrap()).collect();
    assert_eq!(hashes, vec!["2", "1", "3"]);
}

#[test]
fn sort_by_path_orders_items() {
    let result = assemble_scan_result(
        "r".to_string(),
        vec![found("/q/2.jpg", MediaType::Photo, None), found("/q/1.jpg", MediaType::Photo, None)],
        0,
    );
    let sorted = sort_by_path(&result.items);
    let paths: Vec<&str> = sorted.iter().map(|m| m.path.as_str()).collect();
    assert_eq!(paths, vec!["/q/1.jpg", "/q/2.jpg"]);
}

#[test]
fn display_name_is_final_component() {
    assert_eq!(display_name("/usr/bin/"), "bin");
    assert_eq!(display_name("/photos/trip/a.jpg"), "a.jpg");
    assert_eq!(display_name("a.jpg"), "a.jpg");
    assert_eq!(display_name("/"), "/");
    assert_eq!(display_name(""), "");
    assert_eq!(display_name("/photos/.."), "/photos/..");
}

#[test]
fn display_name_from_falls_back_to_path() {
    assert_eq!(display_name_from("/x/y", Some("y".to_string())), "y");
    assert_eq!(display_name_from("/x/y", Some(String::new())), "/x/y");
    assert_eq!(display_name_from("/x/y", None), "/x/y");
}

#[test]
fn extensions_by_kind() {
    for e in ["jpg", "jpeg", "png", "webp", "gif", "bmp", "tif", "tiff", "heic", "heif", "avif", "JPG", "HeIc"] {
        assert!(image_extension_supported(e), "{e}");
        assert!(!video_extension_supported(e), "{e}");
    }
    for e in ["mp4", "mov", "m4v", "avi", "mkv", "webm", "wmv", "mpg", "mpeg", "3gp", "mts", "m2ts", "MOV"] {
        assert!(video_extension_supported(e), "{e}");
        assert!(!image_extension_supported(e), "{e}");
    }
    assert!(!image_extension_supported("txt"));
    assert!(!video_extension_supported(""));
    assert_eq!(media_type_for_extension(Some("PNG")), Some(MediaType::Photo));
    assert_eq!(media_type_for_extension(Some("mkv")), Some(MediaType::Video));
    assert_eq!(media_type_for_extension(Some("doc")), None);
    assert_eq!(media_type_for_extension(None), None);
}

#[test]
fn media_type_for_paths() {
    assert_eq!(media_type_for_path("a/b.JPG"), Some(MediaType::Photo));
    assert_eq!(media_type_for_path("/v/clip.m2ts"), Some(MediaType::Video));
    assert_eq!(media_type_for_path("/v/notes.txt"), None);
    assert_eq!(media_type_for_path("/v/noext"), None);
    assert_eq!(media_type_for_path("/v/.jpg"), None);
    assert!(is_supported_image("x.tiff"));
    assert!(!is_supported_image("x.mp4"));
    assert!(is_supported_video("x.mp4"));
    assert!(!is_supported_video("x.jpeg"));
    assert!(!is_supported_video("/dir.mp4/file"));
}

#[test]
fn walk_reads_folders_breadth_first_and_sorts_what_it_found() {
    let mut walk: ScanWalk<String> = ScanWalk::new("/r".to_string());
    assert_eq!(walk.next_folder().as_deref(), Some("/r"));
    assert!(matches!(walk.entry("/r/b".to_string(), Some("/r/b".to_string())), EntryStep::Queued));
    assert!(matches!(walk.entry("/r/a".to_string(), Some("/r/a".to_string())), EntryStep::Queued));
    assert!(matches!(walk.entry("/r/z.JPG".to_string(), None), EntryStep::ReadPhoto));
    walk.add_photo("/r/z.JPG".to_string(), b"abc");
    assert!(matches!(walk.entry("/r/broken.png".to_string(), None), EntryStep::ReadPhoto));
    walk.photo_unreadable();
    assert!(matches!(walk.entry("/r/notes.txt".to_string(), None), EntryStep::Skipped));
    assert_eq!(walk.next_folder().as_deref(), Some("/r/b"));
    assert!(matches!(walk.entry("/r/b/clip.mov".to_string(), None), EntryStep::Recorded));
    assert_eq!(walk.next_folder().as_deref(), Some("/r/a"));
    walk.folder_unreadable();
    assert_eq!(walk.next_folder(), None);
    assert_eq!(walk.skipped_count(), 3);
    let result = walk.finish("root-1".to_string());
    assert_eq!(result.stats.photo_count, 1);
    assert_eq!(result.stats.video_count, 1);
    assert_eq!(result.stats.skipped_count, 3);
    let paths: Vec<&str> = result.items.iter().map(|m| m.path.as_str()).collect();
    assert_eq!(paths, vec!["/r/b/clip.mov", "/r/z.JPG"]);
    assert_eq!(
        result.items[1].content_hash.as_deref(),
        Some("ba7816bf8f01cfea414140de5dae2223b00361a396177a9cb410ff61f20015ad")
    );
    assert_eq!(result.items[1].name, "z.JPG");
    assert_eq!(result.items[0].name, "clip.mov");
}

#[test]
fn plain_names_by_last_extension() {
    assert!(is_supported_image("photo.backup.PNG"));
    assert!(!is_supported_image("photo.png.txt"));
    assert!(!is_supported_image(".jpg"));
    assert!(is_supported_image("..jpg"));
    assert!(!is_supported_image("jpg"));
    assert!(is_supported_video("clip.final.MKV"));
    assert!(!is_supported_video(".mp4"));
    assert!(!is_supported_video("mp4."));
}

#[test]
fn slash_paths_by_final_name() {
    assert_eq!(display_name("/home/ann/Pictures/trip.jpeg"), "trip.jpeg");
    assert_eq!(display_name("relative/dir/clip.MP4"), "clip.MP4");
    assert_eq!(media_type_for_path("/home/ann/Pictures/trip.jpeg"), Some(MediaType::Photo));
    assert_eq!(media_type_for_path("/home/ann/v.d/clip.webm"), Some(MediaType::Video));
    assert_eq!(media_type_for_path("/home/ann/x.jpg/notes"), None);
    assert_eq!(media_type_for_path("/home/ann/.png"), None);
    assert!(is_supported_image("/a/b/c.heic"));
    assert!(!is_supported_video("/a/b/c.heic"));
    assert!(is_supported_video("/a/b.c/d.m4v"));
}

#[test]
fn walk_steps_follow_the_file_kind() {
    let mut walk: ScanWalk<String> = ScanWalk::new("/lib".to_string());
    walk.next_folder();
    assert!(matches!(walk.entry("/lib/a.gif".to_string(), None), EntryStep::ReadPhoto));
    assert!(matches!(walk.entry("/lib/a.avi".to_string(), None), EntryStep::Recorded));
    assert!(matches!(walk.entry("/lib/a.pdf".to_string(), None), EntryStep::Skipped));
    assert!(matches!(walk.entry("/lib/photos.jpg".to_string(), Some("/lib/photos.jpg".to_string())), EntryStep::Queued));
    assert_eq!(walk.next_folder().as_deref(), Some("/lib/photos.jpg"));
    assert_eq!(walk.next_folder(), None);
}

#[test]
fn display_names_of_trailing_roots_and_parents() {
    assert_eq!(display_name("/photos/2024"), "2024");
    assert_eq!(display_name("/photos/2024/"), "2024");
    assert_eq!(display_name("/photos/a.jpg"), "a.jpg");
    assert_eq!(display_name("/"), "/");
    assert_eq!(display_name(""), "");
    assert_eq!(display_name("a/.."), "a/..");
}

#[test]
fn backslash_paths_by_final_part() {
    assert_eq!(media_type_for_path(r"C:\Users\ann\trip.JPG"), Some(MediaType::Photo));
    assert_eq!(media_type_for_path(r"\\?\C:\d\clip.mov"), Some(MediaType::Video));
    assert_eq!(media_type_for_path(r"C:\d\notes.txt"), None);
    assert!(is_supported_image(r"a\b.png"));
}
