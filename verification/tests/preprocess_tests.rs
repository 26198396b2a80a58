use onnx_inference::{InferenceEngine, InferenceError};

#[test]
fn test_chw_from_rgb_permutes_channels() {
    // two-by-two image, row-major RGB triples
    let pixels: Vec<u8> = vec![
        10, 20, 30, // pixel (0,0)
        11, 21, 31, // pixel (0,1)
        12, 22, 32, // pixel (1,0)
        13, 23, 33, // pixel (1,1)
    ];
    let chw = onnx_inference::inference::chw_from_rgb(&pixels, 2, 2);
    assert_eq!(
        chw,
        vec![
            10, 11, 12, 13, // red plane
            20, 21, 22, 23, // green plane
            30, 31, 32, 33, // blue plane
        ]
    );
}

#[test]
fn test_preprocess_image_decodes_and_lays_out() {
    // a uniform red PNG; resizing a constant image keeps it constant
    let img = image::RgbImage::from_pixel(10, 10, image::Rgb([255, 0, 0]));
    let mut bytes: Vec<u8> = Vec::new();
    img.write_to(
        &mut std::io::Cursor::new(&mut bytes),
        image::ImageFormat::Png,
    )
    .unwrap();

    let tensor = InferenceEngine::preprocess_image(&bytes).unwrap();
    assert_eq!(tensor.data.len(), 3 * 224 * 224);
    // red plane first, then green, then blue
    assert!(tensor.data[0] >= 250);
    assert!(tensor.data[224 * 224] <= 5);
    assert!(tensor.data[2 * 224 * 224] <= 5);
}

#[test]
fn test_preprocess_image_is_deterministic() {
    let bad = [9u8, 9, 9];
    let e1 = InferenceEngine::preprocess_image(&bad).unwrap_err();
    let e2 = InferenceEngine::preprocess_image(&bad).unwrap_err();
    assert_eq!(e1.message(), e2.message());

    let img = image::RgbImage::from_pixel(7, 5, image::Rgb([10, 200, 30]));
    let mut bytes: Vec<u8> = Vec::new();
    img.write_to(
        &mut std::io::Cursor::new(&mut bytes),
        image::ImageFormat::Png,
    )
    .unwrap();
    let t1 = InferenceEngine::preprocess_image(&bytes).unwrap();
    let t2 = InferenceEngine::preprocess_image(&bytes).unwrap();
    assert_eq!(t1.data, t2.data);
}

#[test]
fn test_preprocess_image_rejects_garbage() {
    let err = InferenceEngine::preprocess_image(&[1, 2, 3, 4]).unwrap_err();
    assert!(matches!(err, InferenceError::InvalidImageData(_)));
    assert!(err
        .message()
        .starts_with("Invalid image data: Failed to load image from bytes: "));
}
