use onnx_inference::{InferenceEngine, InferenceError, LabelsManager, LoadPlan};

#[test]
fn test_error_constructors_and_messages() {
    let cases: Vec<(InferenceError, &str)> = vec![
        (
            InferenceError::model_not_found("m.onnx"),
            "Model file not found: m.onnx",
        ),
        (
            InferenceError::invalid_image("bad bytes"),
            "Invalid image data: bad bytes",
        ),
        (
            InferenceError::session_failed("no backend"),
            "Failed to create ONNX session: no backend",
        ),
        (
            InferenceError::model_loading_failed("parse error"),
            "Failed to load model: parse error",
        ),
        (
            InferenceError::inference_failed("engine fault"),
            "Inference execution failed: engine fault",
        ),
        (
            InferenceError::output_processing_failed("no output"),
            "Failed to process output: no output",
        ),
        (
            InferenceError::labels_loading_failed("empty"),
            "Failed to load labels: empty",
        ),
        (
            InferenceError::memory_error("lock poisoned"),
            "Memory allocation failed: lock poisoned",
        ),
    ];
    for (err, expected) in cases {
        assert_eq!(err.message(), expected);
    }
    assert!(matches!(
        InferenceError::model_not_found("x"),
        InferenceError::ModelNotFound(_)
    ));
    assert!(matches!(
        InferenceError::session_failed("x"),
        InferenceError::SessionCreationFailed(_)
    ));
}

#[test]
fn test_new_engine_is_empty() {
    let engine = InferenceEngine::new();
    assert!(!engine.is_model_loaded());
    assert!(engine.get_loaded_model_path().is_none());
    assert!(engine.get_last_result().is_none());
    assert!(engine.get_last_error().is_none());
}

#[test]
fn test_run_without_model_fails_not_found() {
    let engine = InferenceEngine::new();
    let err = engine.check_model_loaded().unwrap_err();
    assert!(matches!(err, InferenceError::ModelNotFound(_)));
    assert_eq!(
        err.message(),
        "Model file not found: No model loaded. Call load_model first."
    );
    assert!(engine.get_last_result().is_none());
}

#[test]
fn test_load_plan_transitions() {
    let mut engine = InferenceEngine::new();
    assert!(matches!(engine.plan_load("a.onnx", false), LoadPlan::MissingFile));
    assert!(matches!(engine.plan_load("a.onnx", true), LoadPlan::LoadFresh));

    engine.commit_load("a.onnx");
    assert!(engine.is_model_loaded());
    assert_eq!(engine.get_loaded_model_path().unwrap(), "a.onnx");
    // loading the same path again is a no-op
    assert!(matches!(engine.plan_load("a.onnx", true), LoadPlan::AlreadyLoaded));
    // a different path replaces the cached model
    assert!(matches!(engine.plan_load("b.onnx", true), LoadPlan::LoadFresh));
    engine.commit_load("b.onnx");
    assert_eq!(engine.get_loaded_model_path().unwrap(), "b.onnx");
    assert!(matches!(engine.plan_load("b.onnx", true), LoadPlan::AlreadyLoaded));
    // once loaded, the precheck passes
    assert!(engine.check_model_loaded().is_ok());
}

#[test]
fn test_store_and_get_error() {
    let mut engine = InferenceEngine::new();
    assert!(engine.get_last_error().is_none());
    engine.store_error("first failure");
    assert_eq!(engine.get_last_error().unwrap(), "first failure");
    engine.store_error("second failure");
    assert_eq!(engine.get_last_error().unwrap(), "second failure");
}

#[test]
fn test_process_output_total_is_sum_of_stages() {
    let mut engine = InferenceEngine::new();
    let lm = LabelsManager::new();
    let data: Vec<u32> = vec![1, 2, 3];
    let result = engine.process_output(data, Vec::new(), vec![1, 3], &lm, 250, 1200, 40);
    assert!(!result.is_classification);
    assert!(result.top_predictions.is_empty());
    assert_eq!(result.inference_time_us, 250);
    assert_eq!(result.preprocessing_time_us, 1200);
    assert_eq!(result.postprocessing_time_us, 40);
    assert_eq!(result.total_time_us, 1200 + 250 + 40);
    assert_eq!(result.shape, vec![1, 3]);
    assert_eq!(result.len(), 3);
    assert!(!result.is_empty());
}

#[test]
fn test_process_output_classification_and_retention() {
    let mut engine = InferenceEngine::new();
    let lm = LabelsManager::new();
    let data: Vec<u32> = (0..1000).map(|i| i as u32).collect();
    let probs: Vec<u32> = (0..1000).map(|i| (1000 - i) as u32).collect();
    let result = engine.process_output(data, probs, vec![1, 1000], &lm, 10, 20, 30);
    assert!(result.is_classification);
    assert_eq!(result.top_predictions.len(), 5);
    let ids: Vec<usize> = result.top_predictions.iter().map(|e| e.class_id).collect();
    assert_eq!(ids, vec![0, 1, 2, 3, 4]);
    assert_eq!(result.top_predictions[0].confidence, 1000);
    assert_eq!(result.top_predictions[0].class_name, "tench");
    let top = result.top_prediction().unwrap();
    assert_eq!(top.class_id, 0);

    let held = engine.get_last_result().unwrap();
    assert_eq!(held.data, result.data);
    assert_eq!(held.shape, result.shape);
    assert_eq!(held.is_classification, result.is_classification);
    assert_eq!(held.top_predictions.len(), result.top_predictions.len());
    assert_eq!(held.total_time_us, result.total_time_us);
}

#[test]
fn test_outcome_duplicate_carries_values() {
    let mut engine = InferenceEngine::new();
    let lm = LabelsManager::new();
    let result = engine.process_output(vec![7], Vec::new(), vec![1], &lm, 1, 2, 3);
    let copy = result.duplicate();
    assert_eq!(copy.data, vec![7]);
    assert_eq!(copy.shape, vec![1]);
    assert_eq!(copy.total_time_us, 6);
    assert!(copy.top_predictions.is_empty());
}
