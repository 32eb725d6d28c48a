use std::collections::VecDeque;
use std::sync::Arc;
use screenvidcap::capture::{captured_frame, decide_frame, keep_frame, CaptureError, FrameDecision};

fn png_of(width: u32, height: u32, rgba: &[u8]) -> Vec<u8> {
    let mut out = Vec::new();
    {
        let mut encoder = png::Encoder::new(&mut out, width, height);
        encoder.set_color(png::ColorType::Rgba);
        encoder.set_depth(png::BitDepth::Eight);
        let mut writer = encoder.write_header().unwrap();
        writer.write_image_data(rgba).unwrap();
    }
    out
}

#[test]
fn captured_frame_decodes_png() {
    let rgba = [1u8, 2, 3, 4, 5, 6, 7, 8];
    let file = png_of(2, 1, &rgba);
    match captured_frame(&file, 2, 1, None) {
        Ok(frame) => assert_eq!(frame, rgba.to_vec()),
        Err(_) => panic!("expected a frame"),
    }
}

#[test]
fn captured_frame_rescales() {
    let rgba = [1u8, 1, 1, 1, 2, 2, 2, 2, 3, 3, 3, 3, 4, 4, 4, 4];
    let file = png_of(2, 2, &rgba);
    match captured_frame(&file, 1, 1, Some((2, 2))) {
        Ok(frame) => assert_eq!(frame, vec![4, 4, 4, 4]),
        Err(_) => panic!("expected a frame"),
    }
}

#[test]
fn captured_frame_short_image() {
    let file = png_of(1, 1, &[9, 9, 9, 9]);
    assert!(matches!(captured_frame(&file, 1, 1, Some((2, 2))), Err(CaptureError::ShortImage)));
}

#[test]
fn captured_frame_rejects_garbage() {
    assert!(matches!(captured_frame(&vec![1, 2, 3], 1, 1, None), Err(CaptureError::Undecodable)));
}

#[test]
fn decide_frame_keeps_right_size() {
    match decide_frame(Some(vec![1, 2, 3, 4]), false, 4) {
        Ok(FrameDecision::Keep(f)) => assert_eq!(f, vec![1, 2, 3, 4]),
        _ => panic!("expected to keep the frame"),
    }
}

#[test]
fn decide_frame_retries_once_then_blanks() {
    assert!(matches!(decide_frame(None, false, 8), Ok(FrameDecision::RefreshAndRetry)));
    match decide_frame(None, true, 8) {
        Ok(FrameDecision::Keep(f)) => assert_eq!(f, vec![0u8; 8]),
        _ => panic!("expected a blank frame"),
    }
}

#[test]
fn decide_frame_wrong_size_is_error() {
    match decide_frame(Some(vec![1, 2, 3]), true, 4) {
        Err(e) => {
            assert_eq!(e.expected, 4);
            assert_eq!(e.got, 3);
        },
        _ => panic!("expected an error"),
    }
}

#[test]
fn keep_frame_appends_and_shares() {
    let mut rec: VecDeque<Arc<Vec<u8>>> = VecDeque::new();
    assert!(keep_frame(&mut rec, vec![1, 2, 3, 4], false).is_none());
    let shared = keep_frame(&mut rec, vec![5, 6, 7, 8], true).expect("a GIF shares the frame");
    assert_eq!(rec.len(), 2);
    assert_eq!(*rec[0], vec![1, 2, 3, 4]);
    assert!(Arc::ptr_eq(&shared, &rec[1]));
}
