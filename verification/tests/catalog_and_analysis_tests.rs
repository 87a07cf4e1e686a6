use moments::analysis::{settle_scan, AnalysisStart, AnalysisStep, FolderAnalysis};
use moments::catalog::{
    delete_result, face_analysis_done, folder_analysis_done, folder_analysis_without_model,
    install_result, installed_model, is_face_scanning, model_definition, model_definitions,
    model_info, FACE_MODEL_ID, FACE_SCANNING_TASK, IMAGE_CLASSIFICATION_TASK,
};
use moments::library::{LibraryState, ScanResult};
use moments::models::{
    AiModelInfo, FaceAnalysisResult, FaceAnalysisStatus, FaceCandidate, LibraryRoot,
    LibraryRootStatus, MediaItem, MediaType, ScanStats,
};

fn model(task: &str, installed: bool) -> AiModelInfo {
    AiModelInfo {
        id: format!("{task}-id"),
        name: "n".to_string(),
        task: task.to_string(),
        accelerator: "CPU".to_string(),
        description: "d".to_string(),
        file_name: "f.onnx".to_string(),
        download_url: "u".to_string(),
        installed,
        size_bytes: 10,
    }
}

#[test]
fn model_table_has_four_models() {
    let all = model_definitions();
    let ids: Vec<&str> = all.iter().map(|d| d.id).collect();
    assert_eq!(
        ids,
        vec![
            "face-detection-yunet-cpu",
            "face-detection-yunet-gpu",
            "image-classification-mobilenet-cpu",
            "image-classification-mobilenet-gpu"
        ]
    );
    assert_eq!(all[1].accelerator, "GPU");
    assert_eq!(all[2].task, "Image classification");
    assert_eq!(all[3].file_name, "mobilenetv2-12.gpu.onnx");
}

#[test]
fn model_definition_by_id() {
    let d = model_definition(FACE_MODEL_ID).unwrap();
    assert_eq!(d.file_name, "face_detection_yunet_2023mar.cpu.onnx");
    assert_eq!(d.task, FACE_SCANNING_TASK);
    match model_definition("nope") {
        Ok(_) => panic!("unknown id accepted"),
        Err(e) => assert_eq!(e, "unknown model 'nope'"),
    }
}

#[test]
fn model_info_and_results() {
    let d = model_definition("image-classification-mobilenet-gpu").unwrap();
    let info = model_info(&d, true, 1234);
    assert_eq!(info.id, "image-classification-mobilenet-gpu");
    assert_eq!(info.task, IMAGE_CLASSIFICATION_TASK);
    assert!(info.installed);
    assert_eq!(info.size_bytes, 1234);
    let installed = install_result(&d, info.clone(), false);
    assert_eq!(installed.message, "Image classification GPU model installed.");
    let already = install_result(&d, info.clone(), true);
    assert_eq!(already.message, "Model is already installed.");
    let deleted = delete_result(&d, info, 99);
    assert_eq!(deleted.removed_bytes, 99);
    assert_eq!(deleted.message, "Image classification GPU model deleted.");
}

#[test]
fn installed_model_matches_task_ignoring_case() {
    let models = vec![
        model("Face scanning", false),
        model("face SCANNING", true),
        model("Image classification", true),
    ];
    let found = installed_model(&models, "Face scanning").unwrap();
    assert_eq!(found.task, "face SCANNING");
    assert!(installed_model(&models, "Other").is_none());
    assert!(installed_model(&vec![model("Face scanning", false)], "Face scanning").is_none());
    assert!(is_face_scanning("Face scanning"));
    assert!(!is_face_scanning("face scanning"));
}

#[test]
fn folder_analysis_reports() {
    let missing = folder_analysis_without_model("root-1".to_string(), "Face scanning", 7);
    assert_eq!(missing.status, FaceAnalysisStatus::ModelMissing);
    assert_eq!(missing.message, "Install a Face scanning model before running folder analysis.");
    assert_eq!(missing.processed_media, 7);
    assert_eq!(missing.model_id, "");
    let m = model("Face scanning", true);
    let done = folder_analysis_done("root-1".to_string(), "Face scanning", &m, 12, vec![], vec![]);
    assert_eq!(done.status, FaceAnalysisStatus::Ready);
    assert_eq!(done.model_id, "Face scanning-id");
    assert_eq!(
        done.message,
        "Face scanning processed 12 photos with ONNX Runtime using the CPU model."
    );
}

#[test]
fn face_analysis_done_counts_faces() {
    let start = FaceAnalysisResult {
        media_id: "m".to_string(),
        status: FaceAnalysisStatus::ModelMissing,
        message: String::new(),
        faces: vec![],
    };
    let done = face_analysis_done(start, vec![face("m-face-1", "m"), face("m-face-2", "m")]);
    assert_eq!(done.media_id, "m");
    assert_eq!(done.status, FaceAnalysisStatus::Ready);
    assert_eq!(done.message, "ONNX face detection found 2 faces.");
    assert_eq!(done.faces.len(), 2);
}

fn face(id: &str, media_id: &str) -> FaceCandidate {
    FaceCandidate {
        id: id.to_string(),
        media_id: media_id.to_string(),
        name: None,
        confidence: 1.0f32.to_bits(),
        x: 0,
        y: 0,
        width: 0,
        height: 0,
    }
}

fn item(id: &str, root: &str, path: &str, media_type: MediaType) -> MediaItem {
    MediaItem {
        id: id.to_string(),
        root_id: root.to_string(),
        name: path.to_string(),
        path: path.to_string(),
        media_type,
        content_hash: None,
    }
}

fn library() -> LibraryState {
    let mut state = LibraryState::new();
    state.hydrate(
        vec![LibraryRoot {
            id: "root-1".to_string(),
            name: "p".to_string(),
            path: "/p".to_string(),
            status: LibraryRootStatus::Ready,
            photo_count: 0,
            video_count: 0,
            media_count: 0,
        }],
        vec![
            item("a", "root-1", "/p/a.jpg", MediaType::Photo),
            item("v", "root-1", "/p/v.mp4", MediaType::Video),
            item("b", "root-1", "/p/b.jpg", MediaType::Photo),
        ],
        vec![],
        vec![],
    );
    state
}

#[test]
fn folder_analysis_without_model_reports_at_once() {
    let state = library();
    match FolderAnalysis::begin(&state, "root-1".to_string(), "Face scanning", None) {
        AnalysisStart::Report(report) => {
            assert_eq!(report.processed_media, 2);
            assert_eq!(report.status, FaceAnalysisStatus::ModelMissing);
        },
        AnalysisStart::Run(_) => panic!("ran without a model"),
    }
}

#[test]
fn face_analysis_runs_over_each_photo() {
    let mut state = library();
    let mut run = match FolderAnalysis::begin(&state, "root-1".to_string(), "Face scanning", Some(model("Face scanning", true))) {
        AnalysisStart::Run(run) => run,
        AnalysisStart::Report(_) => panic!("model was given"),
    };
    let mut visited = Vec::new();
    loop {
        match run.next_step() {
            AnalysisStep::DetectFaces(photo) => {
                let found = vec![face(&format!("{}-face-1", photo.id), &photo.id)];
                visited.push(photo.id.clone());
                let stored = run.record_faces(&mut state, found).unwrap();
                assert_eq!(stored.len(), 1);
            },
            AnalysisStep::Classify(_) => panic!("face task classified"),
            AnalysisStep::Finished => break,
        }
    }
    assert_eq!(visited, vec!["a", "b"]);
    let report = run.finish();
    assert_eq!(report.processed_media, 2);
    assert_eq!(report.faces.len(), 2);
    assert!(report.metadata.is_empty());
    assert_eq!(
        report.message,
        "Face scanning processed 2 photos with ONNX Runtime using the CPU model."
    );
    let md = state.metadata_for_media(vec!["b".to_string()]);
    assert_eq!(md[0].face_ids, vec!["b-face-1"]);
}

#[test]
fn classification_runs_merge_tags() {
    let mut state = library();
    state.set_tags("a".to_string(), vec!["Old".to_string()]).unwrap();
    let mut run = match FolderAnalysis::begin(&state, "root-1".to_string(), "Image classification", Some(model("Image classification", true))) {
        AnalysisStart::Run(run) => run,
        AnalysisStart::Report(_) => panic!("model was given"),
    };
    while let AnalysisStep::Classify(_) = run.next_step() {
        let entry = run.record_tags(&mut state, vec!["photo".to_string(), "old".to_string()]).unwrap();
        assert!(entry.tags.contains(&"photo".to_string()));
    }
    assert!(matches!(run.next_step(), AnalysisStep::Finished));
    let report = run.finish();
    assert_eq!(report.metadata.len(), 2);
    assert_eq!(report.metadata[0].tags, vec!["Old", "photo"]);
    assert_eq!(report.metadata[1].tags, vec!["old", "photo"]);
    assert!(report.faces.is_empty());
}

#[test]
fn recording_for_a_vanished_item_fails() {
    let mut state = library();
    let mut run = match FolderAnalysis::begin(&state, "root-1".to_string(), "Face scanning", Some(model("Face scanning", true))) {
        AnalysisStart::Run(run) => run,
        AnalysisStart::Report(_) => panic!("model was given"),
    };
    state.delete_media_items(&["a".to_string()]);
    assert_eq!(run.record_faces(&mut state, vec![]).unwrap_err(), "media item 'a' was not found");
    assert!(matches!(run.next_step(), AnalysisStep::DetectFaces(_)));
}

#[test]
fn settle_finished_scan_gives_rows() {
    let mut state = library();
    state.root_path("root-1").unwrap();
    let outcome = Ok(ScanResult {
        stats: ScanStats {
            root_id: "root-1".to_string(),
            photo_count: 1,
            video_count: 0,
            media_count: 1,
            skipped_count: 2,
        },
        items: vec![item("root-1-media-1", "root-1", "/p/n.jpg", MediaType::Photo)],
    });
    let (stats, items) = settle_scan(&mut state, "root-1", outcome).unwrap();
    assert_eq!(stats.skipped_count, 2);
    assert_eq!(items.len(), 1);
    assert_eq!(items[0].path, "/p/n.jpg");
    assert_eq!(state.roots()[0].status, LibraryRootStatus::Ready);
    assert_eq!(state.roots()[0].photo_count, 1);
}

#[test]
fn settle_failed_scan_marks_error() {
    let mut state = library();
    let result = settle_scan(&mut state, "root-1", Err("disk gone".to_string()));
    assert_eq!(result.unwrap_err(), "disk gone");
    assert_eq!(state.roots()[0].status, LibraryRootStatus::Error);
    assert!(state.media_for_root("root-1").is_empty());
}
