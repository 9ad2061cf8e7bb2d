use lobedo_core::image_data::ImageData;

#[test]
fn images_check_their_data_length() {
    let rgb = ImageData::from_rgb(2, 1, vec![0; 6]).unwrap();
    assert_eq!((rgb.width(), rgb.height(), rgb.len()), (2, 1, 2));
    assert!(rgb.rgb_data().is_some());
    assert!(rgb.depth_data().is_none());
    assert_eq!(
        ImageData::from_rgb(2, 1, vec![0; 5]).err(),
        Some("RGB image data length 5 does not match 2x1".to_string())
    );
    assert_eq!(
        ImageData::from_depth(3, 4, vec![0; 11]).err(),
        Some("Depth image data length 11 does not match 3x4".to_string())
    );
    assert_eq!(
        ImageData::from_seg(10, 12, vec![]).err(),
        Some("Segmentation image data length 0 does not match 10x12".to_string())
    );
}

#[test]
fn images_compare_sizes() {
    let depth = ImageData::from_depth(3, 4, vec![0; 12]).unwrap();
    let seg = ImageData::from_seg(3, 4, vec![7; 12]).unwrap();
    let other = ImageData::from_seg(4, 3, vec![7; 12]).unwrap();
    assert!(depth.same_size(&seg));
    assert!(!depth.same_size(&other));
    let (labels, w, h) = seg.seg_data().unwrap();
    assert_eq!((labels.len(), w, h), (12, 3, 4));
    let empty = ImageData::from_seg(0, 5, vec![]).unwrap();
    assert!(empty.is_empty());
    assert!(!seg.is_empty());
}
