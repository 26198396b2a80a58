use onnx_inference::{InferenceError, LabelsManager};

#[test]
fn test_fallback_labels() {
    let mut lm = LabelsManager::new();
    lm.clear_labels();
    let labels = lm.get_labels();
    assert_eq!(labels.len(), 1000);
    assert_eq!(labels[0], "tench");
    assert_eq!(labels[14], "indigo bunting");
    assert_eq!(labels[999], "class_999");
}

#[test]
fn test_load_labels_from_content() {
    let content = "dog\ncat\nbird\n";
    let mut lm = LabelsManager::new();
    let result = lm.load_labels_from_content(content);
    assert!(result.is_ok());
    assert_eq!(result.unwrap(), 3);

    let labels = lm.get_labels();
    assert_eq!(labels[0], "dog");
    assert_eq!(labels[1], "cat");
    assert_eq!(labels[2], "bird");
}

#[test]
fn test_empty_content() {
    let content = "\n\n\n";
    let mut lm = LabelsManager::new();
    let result = lm.load_labels_from_content(content);
    assert!(result.is_err());
}

#[test]
fn test_empty_load_reports_labels_error() {
    let mut lm = LabelsManager::new();
    let err = lm.load_labels_from_content("   \n\t\n").unwrap_err();
    assert!(matches!(err, InferenceError::LabelsLoadingFailed(_)));
    assert_eq!(err.message(), "Failed to load labels: Labels file is empty");
}

#[test]
fn test_failed_load_keeps_active_labels() {
    let mut lm = LabelsManager::new();
    assert_eq!(lm.load_labels_from_content("alpha\nbeta").unwrap(), 2);
    assert!(lm.load_labels_from_content("\n\n").is_err());
    let labels = lm.get_labels();
    assert_eq!(labels, vec!["alpha".to_string(), "beta".to_string()]);
}

#[test]
fn test_lines_are_trimmed_and_blanks_dropped() {
    let mut lm = LabelsManager::new();
    let count = lm
        .load_labels_from_content("  dog  \r\n\n\t cat\r\n   \nbird")
        .unwrap();
    assert_eq!(count, 3);
    let labels = lm.get_labels();
    assert_eq!(labels, vec!["dog".to_string(), "cat".to_string(), "bird".to_string()]);
}

#[test]
fn test_get_label_in_and_out_of_range() {
    let mut lm = LabelsManager::new();
    assert_eq!(lm.get_label(0), "tench");
    assert_eq!(lm.get_label(14), "indigo bunting");
    assert_eq!(lm.get_label(500), "class_500");
    assert_eq!(lm.get_label(2000), "class_2000");

    lm.load_labels_from_content("one\ntwo").unwrap();
    assert_eq!(lm.get_label(0), "one");
    assert_eq!(lm.get_label(1), "two");
    assert_eq!(lm.get_label(2), "class_2");

    lm.clear_labels();
    assert_eq!(lm.get_label(0), "tench");
}

#[test]
fn test_synthetic_label_rendering() {
    let lm = LabelsManager::new();
    assert_eq!(lm.get_label(1234567), "class_1234567");
    assert_eq!(lm.get_label(1000), "class_1000");
}
