use moments::files::{normalize_for_native_open, should_copy_sample};
use moments::inference::{
    descriptor_tags, face_candidate_id, face_output_layout, face_output_rows, inference_file_name,
    inference_size_dir, thumbnail_offset, OutputLayout,
};
use moments::models::CacheClearResult;

#[test]
fn rows_follow_the_last_dimension() {
    let rows = face_output_rows(&vec![1, 2, 16], 32);
    assert_eq!(rows.len(), 2);
    assert_eq!(rows[0], (0..16).collect::<Vec<usize>>());
    assert_eq!(rows[1], (16..32).collect::<Vec<usize>>());
    let ragged = face_output_rows(&vec![1, 20], 30);
    assert_eq!(ragged.len(), 2);
    assert_eq!(ragged[1], (20..30).collect::<Vec<usize>>());
}

#[test]
fn rows_of_fifteen_when_values_split_evenly() {
    let rows = face_output_rows(&vec![1, 3, 10], 30);
    assert_eq!(rows.len(), 2);
    assert_eq!(rows[1][0], 15);
    assert_eq!(rows[1][14], 29);
}

#[test]
fn rows_read_column_wise_for_attribute_major_output() {
    let rows = face_output_rows(&vec![1, 16, 2], 33);
    assert_eq!(rows.len(), 2);
    assert_eq!(rows[0].len(), 16);
    assert_eq!(rows[0][0], 0);
    assert_eq!(rows[0][1], 2);
    assert_eq!(rows[1][0], 1);
    assert_eq!(rows[1][15], 31);
    match face_output_layout(&vec![1, 16, 2], 33) {
        OutputLayout::Columns { attributes, candidates } => {
            assert_eq!((attributes, candidates), (16, 2));
        },
        _ => panic!("expected a column layout"),
    }
}

#[test]
fn no_rows_for_unusable_output() {
    assert!(face_output_rows(&vec![], 30).is_empty());
    assert!(face_output_rows(&vec![1, 20], 0).is_empty());
    assert!(face_output_rows(&vec![1, 4], 7).is_empty());
    assert!(face_output_rows(&vec![1, 16, 2], 31).is_empty());
    assert!(face_output_rows(&vec![16, 2], 40).is_empty());
    assert!(matches!(face_output_layout(&vec![2, 3], 6), OutputLayout::Empty));
}

#[test]
fn cached_inference_names() {
    assert_eq!(inference_file_name(255), "00000000000000ff.png");
    assert_eq!(inference_file_name(u64::MAX), "ffffffffffffffff.png");
    assert_eq!(inference_file_name(0x0123456789abcdef), "0123456789abcdef.png");
    assert_eq!(inference_size_dir(640), "640px");
    assert_eq!(inference_size_dir(224), "224px");
}

#[test]
fn face_ids_count_from_one() {
    assert_eq!(face_candidate_id("root-1-media-3", 0), "root-1-media-3-face-1");
    assert_eq!(face_candidate_id("m", 9), "m-face-10");
}

#[test]
fn thumbnails_are_centred() {
    assert_eq!(thumbnail_offset(640, 480), 80);
    assert_eq!(thumbnail_offset(640, 641), 0);
    assert_eq!(thumbnail_offset(640, 639), 0);
    assert_eq!(thumbnail_offset(640, 637), 1);
}

#[test]
fn descriptor_tags_by_shape_and_light() {
    assert_eq!(descriptor_tags(800, 600, true), vec!["photo", "landscape", "bright"]);
    assert_eq!(descriptor_tags(600, 600, false), vec!["photo", "landscape", "low-light"]);
    assert_eq!(descriptor_tags(600, 800, false), vec!["photo", "portrait", "low-light"]);
}

#[test]
fn native_open_path_on_unix_keeps_canonical() {
    assert_eq!(normalize_for_native_open(Ok("/p/a.jpg".to_string()), false).unwrap(), "/p/a.jpg");
    assert_eq!(
        normalize_for_native_open(Ok(r"\\?\C:\p\a.jpg".to_string()), false).unwrap(),
        r"\\?\C:\p\a.jpg"
    );
    assert_eq!(
        normalize_for_native_open(Err("No such file".to_string()), false).unwrap_err(),
        "failed to resolve media path: No such file"
    );
}

#[test]
fn native_open_path_on_windows_drops_verbatim_prefix() {
    assert_eq!(
        normalize_for_native_open(Ok(r"\\?\C:\p\a.jpg".to_string()), true).unwrap(),
        r"C:\p\a.jpg"
    );
    assert_eq!(
        normalize_for_native_open(Ok(r"\\?\UNC\server\share\a.jpg".to_string()), true).unwrap(),
        r"\\server\share\a.jpg"
    );
    assert_eq!(normalize_for_native_open(Ok(r"C:\p".to_string()), true).unwrap(), r"C:\p");
}

#[test]
fn samples_are_copied_when_missing_changed_or_newer() {
    assert!(should_copy_sample(None, 10, Some(5)));
    assert!(should_copy_sample(Some((9, Some(5))), 10, Some(5)));
    assert!(should_copy_sample(Some((10, Some(4))), 10, Some(5)));
    assert!(!should_copy_sample(Some((10, Some(5))), 10, Some(5)));
    assert!(!should_copy_sample(Some((10, Some(6))), 10, Some(5)));
    assert!(should_copy_sample(Some((10, None)), 10, Some(-3)));
    assert!(!should_copy_sample(Some((10, None)), 10, None));
    assert!(!should_copy_sample(Some((10, Some(1))), 10, None));
}

#[test]
fn cache_clearing_counts_files_and_bytes() {
    let mut result = CacheClearResult { removed_files: 0, removed_bytes: 0 };
    result.count_removed_file(100);
    result.count_removed_file(23);
    assert_eq!(result.removed_files, 2);
    assert_eq!(result.removed_bytes, 123);
}
