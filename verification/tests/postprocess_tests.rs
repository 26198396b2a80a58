use onnx_inference::{InferenceEngine, LabelsManager};

#[test]
fn test_top_predictions() {
    let probs = vec![0.1f32, 0.7, 0.2];
    let scores: Vec<u32> = probs.iter().map(|p| p.to_bits()).collect();
    let lm = LabelsManager::new();
    let predictions = InferenceEngine::get_top_predictions(&scores, 2, &lm);

    assert_eq!(predictions.len(), 2);
    assert_eq!(predictions[0].class_id, 1); // Index of highest prob (0.7)
    assert_eq!(predictions[1].class_id, 2); // Index of second highest (0.2)
}

#[test]
fn test_top_predictions_carry_scores_and_labels() {
    let scores: Vec<u32> = vec![10, 40, 20, 30];
    let lm = LabelsManager::new();
    let predictions = InferenceEngine::get_top_predictions(&scores, 3, &lm);
    assert_eq!(predictions.len(), 3);
    assert_eq!(predictions[0].class_id, 1);
    assert_eq!(predictions[0].confidence, 40);
    assert_eq!(predictions[0].class_name, "goldfish");
    assert_eq!(predictions[1].class_id, 3);
    assert_eq!(predictions[1].confidence, 30);
    assert_eq!(predictions[2].class_id, 2);
    assert_eq!(predictions[2].confidence, 20);
}

#[test]
fn test_top_predictions_ties_prefer_lower_index() {
    let scores: Vec<u32> = vec![5, 5, 5];
    let lm = LabelsManager::new();
    let predictions = InferenceEngine::get_top_predictions(&scores, 2, &lm);
    assert_eq!(predictions.len(), 2);
    assert_eq!(predictions[0].class_id, 0);
    assert_eq!(predictions[1].class_id, 1);
}

#[test]
fn test_top_predictions_k_exceeds_len() {
    let scores: Vec<u32> = vec![3, 1];
    let lm = LabelsManager::new();
    let predictions = InferenceEngine::get_top_predictions(&scores, 5, &lm);
    assert_eq!(predictions.len(), 2);
    assert_eq!(predictions[0].class_id, 0);
    assert_eq!(predictions[1].class_id, 1);
}

#[test]
fn test_top_predictions_k_zero() {
    let scores: Vec<u32> = vec![3, 1];
    let lm = LabelsManager::new();
    let predictions = InferenceEngine::get_top_predictions(&scores, 0, &lm);
    assert!(predictions.is_empty());
}

#[test]
fn test_classify_small_output_is_not_classification() {
    let scores: Vec<u32> = (0..999).collect();
    let lm = LabelsManager::new();
    let (is_classification, entries) = InferenceEngine::classify_if_applicable(&scores, &lm);
    assert!(!is_classification);
    assert!(entries.is_empty());
}

#[test]
fn test_classify_large_output_ranks_top_five() {
    let scores: Vec<u32> = (0..1000).collect();
    let lm = LabelsManager::new();
    let (is_classification, entries) = InferenceEngine::classify_if_applicable(&scores, &lm);
    assert!(is_classification);
    assert_eq!(entries.len(), 5);
    let ids: Vec<usize> = entries.iter().map(|e| e.class_id).collect();
    assert_eq!(ids, vec![999, 998, 997, 996, 995]);
    for (i, e) in entries.iter().enumerate() {
        assert_eq!(e.confidence, (999 - i) as u32);
        assert_eq!(e.class_name, format!("class_{}", 999 - i));
    }
}
