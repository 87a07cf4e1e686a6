//! The analysis models the app knows and the results it reports about them.
use vstd::prelude::*;

use crate::models::{
    AiModelInfo, FaceAnalysisResult, FaceAnalysisStatus, FaceCandidate, FolderAnalysisResult,
    MediaMetadata, ModelDeleteResult, ModelInstallResult,
};
use crate::seqs::{first_index, lemma_first_index};
use crate::text::{concat2, concat3, decimal, eq_ignore_ascii_case, push_decimal, str_eq_ignore_ascii_case, str_equal};

verus! {

/// Id of the face detector for the CPU.
pub const FACE_MODEL_ID: &'static str = "face-detection-yunet-cpu";

/// Id of the face detector for GPU execution providers.
pub const FACE_GPU_MODEL_ID: &'static str = "face-detection-yunet-gpu";

/// Id of the image classifier for the CPU.
pub const CLASSIFICATION_MODEL_ID: &'static str = "image-classification-mobilenet-cpu";

/// Id of the image classifier for GPU execution providers.
pub const CLASSIFICATION_GPU_MODEL_ID: &'static str = "image-classification-mobilenet-gpu";

/// Where the face detector is downloaded from.
pub const FACE_MODEL_URL: &'static str = "https://github.com/opencv/opencv_zoo/raw/main/models/face_detection_yunet/face_detection_yunet_2023mar.onnx";

/// Where the image classifier is downloaded from.
pub const CLASSIFICATION_MODEL_URL: &'static str = "https://github.com/onnx/models/raw/main/validated/vision/classification/mobilenet/model/mobilenetv2-12.onnx";

/// The task of face models.
pub const FACE_SCANNING_TASK: &'static str = "Face scanning";

/// The task of classification models.
pub const IMAGE_CLASSIFICATION_TASK: &'static str = "Image classification";

/// A model the app can download.
#[derive(Debug)]
pub struct ModelDefinition {
    pub id: &'static str,
    pub name: &'static str,
    pub task: &'static str,
    pub accelerator: &'static str,
    pub description: &'static str,
    pub file_name: &'static str,
    pub download_url: &'static str,
}

/// The models the app knows, in order.
pub open spec fn model_table() -> Seq<ModelDefinition> {
    seq![
        ModelDefinition {
            id: FACE_MODEL_ID,
            name: "YuNet face detector",
            task: FACE_SCANNING_TASK,
            accelerator: "CPU",
            description: "Compact ONNX face detection model for local CPU inference.",
            file_name: "face_detection_yunet_2023mar.cpu.onnx",
            download_url: FACE_MODEL_URL,
        },
        ModelDefinition {
            id: FACE_GPU_MODEL_ID,
            name: "YuNet face detector",
            task: FACE_SCANNING_TASK,
            accelerator: "GPU",
            description: "Same ONNX face model prepared for GPU execution providers such as DirectML or CUDA.",
            file_name: "face_detection_yunet_2023mar.gpu.onnx",
            download_url: FACE_MODEL_URL,
        },
        ModelDefinition {
            id: CLASSIFICATION_MODEL_ID,
            name: "MobileNetV2 classifier",
            task: IMAGE_CLASSIFICATION_TASK,
            accelerator: "CPU",
            description: "General image classification ONNX model for local CPU tagging workflows.",
            file_name: "mobilenetv2-12.cpu.onnx",
            download_url: CLASSIFICATION_MODEL_URL,
        },
        ModelDefinition {
            id: CLASSIFICATION_GPU_MODEL_ID,
            name: "MobileNetV2 classifier",
            task: IMAGE_CLASSIFICATION_TASK,
            accelerator: "GPU",
            description: "General image classification ONNX model prepared for GPU execution providers.",
            file_name: "mobilenetv2-12.gpu.onnx",
            download_url: CLASSIFICATION_MODEL_URL,
        },
    ]
}

/// The models the app knows, in order.
pub fn model_definitions() -> (r: Vec<ModelDefinition>)
    ensures
        r@ == model_table(),
{
    let r = vec![
        ModelDefinition {
            id: FACE_MODEL_ID,
            name: "YuNet face detector",
            task: FACE_SCANNING_TASK,
            accelerator: "CPU",
            description: "Compact ONNX face detection model for local CPU inference.",
            file_name: "face_detection_yunet_2023mar.cpu.onnx",
            download_url: FACE_MODEL_URL,
        },
        ModelDefinition {
            id: FACE_GPU_MODEL_ID,
            name: "YuNet face detector",
            task: FACE_SCANNING_TASK,
            accelerator: "GPU",
            description: "Same ONNX face model prepared for GPU execution providers such as DirectML or CUDA.",
            file_name: "face_detection_yunet_2023mar.gpu.onnx",
            download_url: FACE_MODEL_URL,
        },
        ModelDefinition {
            id: CLASSIFICATION_MODEL_ID,
            name: "MobileNetV2 classifier",
            task: IMAGE_CLASSIFICATION_TASK,
            accelerator: "CPU",
            description: "General image classification ONNX model for local CPU tagging workflows.",
            file_name: "mobilenetv2-12.cpu.onnx",
            download_url: CLASSIFICATION_MODEL_URL,
        },
        ModelDefinition {
            id: CLASSIFICATION_GPU_MODEL_ID,
            name: "MobileNetV2 classifier",
            task: IMAGE_CLASSIFICATION_TASK,
            accelerator: "GPU",
            description: "General image classification ONNX model prepared for GPU execution providers.",
            file_name: "mobilenetv2-12.gpu.onnx",
            download_url: CLASSIFICATION_MODEL_URL,
        },
    ];
    assert(r@ =~= model_table());
    r
}

/// Definitions with the given id.
pub open spec fn definition_has_id(id: Seq<char>) -> spec_fn(ModelDefinition) -> bool {
    |d: ModelDefinition| d.id@ == id
}

/// The message for an unknown model.
pub open spec fn unknown_model(model_id: Seq<char>) -> Seq<char> {
    "unknown model '"@ + model_id + "'"@
}

/// The definition of the model with the given id.
pub fn model_definition(model_id: &str) -> (r: Result<ModelDefinition, String>)
    ensures
        ({
            let i = first_index(model_table(), definition_has_id(model_id@));
            match r {
                Ok(d) => i < model_table().len() && d == model_table()[i],
                Err(e) => i == model_table().len() && e@ == unknown_model(model_id@),
            }
        }),
{
    let table = model_definitions();
    let mut i: usize = 0;
    while i < table.len()
        invariant
            table@ == model_table(),
            i <= table.len(),
            forall|j: int| 0 <= j < i ==> !definition_has_id(model_id@)(#[trigger] table@[j]),
        decreases table.len() - i,
    {
        if str_equal(table[i].id, model_id) {
            proof {
                lemma_first_index(table@, definition_has_id(model_id@), i as int);
            }
            let d = ModelDefinition {
                id: table[i].id,
                name: table[i].name,
                task: table[i].task,
                accelerator: table[i].accelerator,
                description: table[i].description,
                file_name: table[i].file_name,
                download_url: table[i].download_url,
            };
            return Ok(d);
        }
        i = i + 1;
    }
    proof {
        lemma_first_index(table@, definition_has_id(model_id@), i as int);
    }
    Err(concat3("unknown model '", model_id, "'"))
}

/// What the app reports of a model: its definition, and whether its file is
/// present with which size.
pub open spec fn is_model_info(info: AiModelInfo, d: ModelDefinition, installed: bool, size_bytes: u64) -> bool {
    &&& info.id@ == d.id@
    &&& info.name@ == d.name@
    &&& info.task@ == d.task@
    &&& info.accelerator@ == d.accelerator@
    &&& info.description@ == d.description@
    &&& info.file_name@ == d.file_name@
    &&& info.download_url@ == d.download_url@
    &&& info.installed == installed
    &&& info.size_bytes == size_bytes
}

/// What the app reports of a model, given whether its file is present and its size.
pub fn model_info(definition: &ModelDefinition, installed: bool, size_bytes: u64) -> (r: AiModelInfo)
    ensures
        is_model_info(r, *definition, installed, size_bytes),
{
    AiModelInfo {
        id: definition.id.to_owned(),
        name: definition.name.to_owned(),
        task: definition.task.to_owned(),
        accelerator: definition.accelerator.to_owned(),
        description: definition.description.to_owned(),
        file_name: definition.file_name.to_owned(),
        download_url: definition.download_url.to_owned(),
        installed,
        size_bytes,
    }
}

/// Installed models for the given task, in any ASCII case.
pub open spec fn installed_for(task: Seq<char>) -> spec_fn(AiModelInfo) -> bool {
    |m: AiModelInfo| m.installed && eq_ignore_ascii_case(m.task@, task)
}

/// The first installed model for a task, compared ignoring ASCII case.
pub fn installed_model(models: &Vec<AiModelInfo>, task: &str) -> (r: Option<AiModelInfo>)
    ensures
        ({
            let i = first_index(models@, installed_for(task@));
            match r {
                Some(m) => i < models@.len() && m == models@[i],
                None => i == models@.len(),
            }
        }),
{
    let mut i: usize = 0;
    while i < models.len()
        invariant
            i <= models.len(),
            forall|j: int| 0 <= j < i ==> !installed_for(task@)(#[trigger] models@[j]),
        decreases models.len() - i,
    {
        if models[i].installed && str_eq_ignore_ascii_case(models[i].task.as_str(), task) {
            proof {
                lemma_first_index(models@, installed_for(task@), i as int);
            }
            return Some(models[i].clone());
        }
        i = i + 1;
    }
    proof {
        lemma_first_index(models@, installed_for(task@), i as int);
    }
    None
}

/// `<task> <accelerator>` followed by `suffix`.
fn task_message(definition: &ModelDefinition, suffix: &str) -> (r: String)
    ensures
        r@ == definition.task@ + " "@ + definition.accelerator@ + suffix@,
{
    let mut r = concat3(definition.task, " ", definition.accelerator);
    r.append(suffix);
    r
}

/// The report of installing a model: already there, or newly installed.
pub fn install_result(definition: &ModelDefinition, model: AiModelInfo, already_installed: bool) -> (r:
    ModelInstallResult)
    ensures
        r.model == model,
        r.message@ == if already_installed {
            "Model is already installed."@
        } else {
            definition.task@ + " "@ + definition.accelerator@ + " model installed."@
        },
{
    let message = if already_installed {
        String::from_str("Model is already installed.")
    } else {
        task_message(definition, " model installed.")
    };
    ModelInstallResult { model, message }
}

/// The report of deleting a model.
pub fn delete_result(definition: &ModelDefinition, model: AiModelInfo, removed_bytes: u64) -> (r:
    ModelDeleteResult)
    ensures
        r.model == model,
        r.removed_bytes == removed_bytes,
        r.message@ == definition.task@ + " "@ + definition.accelerator@ + " model deleted."@,
{
    ModelDeleteResult { model, removed_bytes, message: task_message(definition, " model deleted.") }
}

/// Whether a folder analysis task is face scanning (exact text).
pub fn is_face_scanning(task: &str) -> (r: bool)
    ensures
        r == (task@ == FACE_SCANNING_TASK@),
{
    str_equal(task, FACE_SCANNING_TASK)
}

/// The report of a folder analysis for which no model is installed.
pub fn folder_analysis_without_model(root_id: String, task: &str, processed_media: u64) -> (r:
    FolderAnalysisResult)
    ensures
        r.root_id == root_id,
        r.task@ == task@,
        r.model_id@.len() == 0,
        r.processed_media == processed_media,
        r.status == FaceAnalysisStatus::ModelMissing,
        r.message@ == "Install a "@ + task@ + " model before running folder analysis."@,
        r.faces@.len() == 0,
        r.metadata@.len() == 0,
{
    FolderAnalysisResult {
        root_id,
        task: task.to_owned(),
        model_id: String::new(),
        processed_media,
        status: FaceAnalysisStatus::ModelMissing,
        message: concat3("Install a ", task, " model before running folder analysis."),
        faces: Vec::new(),
        metadata: Vec::new(),
    }
}

/// The report of a folder analysis that ran `model` over the root's photos.
pub fn folder_analysis_done(
    root_id: String,
    task: &str,
    model: &AiModelInfo,
    processed_media: u64,
    faces: Vec<FaceCandidate>,
    metadata: Vec<MediaMetadata>,
) -> (r: FolderAnalysisResult)
    ensures
        r.root_id == root_id,
        r.task@ == task@,
        r.model_id == model.id,
        r.processed_media == processed_media,
        r.status == FaceAnalysisStatus::Ready,
        r.message@ == task@ + " processed "@ + decimal(processed_media as nat)
            + " photos with ONNX Runtime using the "@ + model.accelerator@ + " model."@,
        r.faces@ == faces@,
        r.metadata@ == metadata@,
{
    let mut message = concat2(task, " processed ");
    push_decimal(&mut message, processed_media);
    message.append(" photos with ONNX Runtime using the ");
    message.append(model.accelerator.as_str());
    message.append(" model.");
    FolderAnalysisResult {
        root_id,
        task: task.to_owned(),
        model_id: model.id.clone(),
        processed_media,
        status: FaceAnalysisStatus::Ready,
        message,
        faces,
        metadata,
    }
}

/// A face analysis completed by the detector with `faces` found.
pub fn face_analysis_done(result: FaceAnalysisResult, faces: Vec<FaceCandidate>) -> (r:
    FaceAnalysisResult)
    ensures
        r.media_id == result.media_id,
        r.status == FaceAnalysisStatus::Ready,
        r.message@ == "ONNX face detection found "@ + decimal(faces@.len()) + " faces."@,
        r.faces@ == faces@,
{
    let mut message = String::from_str("ONNX face detection found ");
    push_decimal(&mut message, faces.len() as u64);
    message.append(" faces.");
    FaceAnalysisResult { media_id: result.media_id, status: FaceAnalysisStatus::Ready, message, faces }
}

} // verus!
