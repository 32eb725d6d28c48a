use screenvidcap::capture::{
    find_display, frame_interval_ms, frame_or_blank, frame_size_bytes, rescale_capture, DisplayBounds,
};

fn two_displays() -> Vec<DisplayBounds> {
    vec![
        DisplayBounds { x: 0, y: 0, width: 1920, height: 1080 },
        DisplayBounds { x: 1920, y: 0, width: 1280, height: 1024 },
    ]
}

#[test]
fn find_display_picks_holder() {
    let d = two_displays();
    assert_eq!(find_display(&d, 10, 10, 100, 100), Some(0));
    assert_eq!(find_display(&d, 2000, 10, 100, 100), Some(1));
    assert_eq!(find_display(&d, 0, 0, 1920, 1080), Some(0));
}

#[test]
fn find_display_none_when_straddling() {
    let d = two_displays();
    assert_eq!(find_display(&d, 1900, 10, 100, 100), None);
    assert_eq!(find_display(&d, -5, 0, 10, 10), None);
    assert_eq!(find_display(&Vec::<DisplayBounds>::new(), 0, 0, 1, 1), None);
}

#[test]
fn find_display_first_of_overlapping() {
    let d = vec![
        DisplayBounds { x: 0, y: 0, width: 100, height: 100 },
        DisplayBounds { x: 0, y: 0, width: 200, height: 200 },
    ];
    assert_eq!(find_display(&d, 10, 10, 50, 50), Some(0));
    assert_eq!(find_display(&d, 10, 10, 150, 150), Some(1));
}

#[test]
fn frame_size_and_interval() {
    assert_eq!(frame_size_bytes(640, 480), 640 * 480 * 4);
    assert_eq!(frame_size_bytes(1, 1), 4);
    assert_eq!(frame_interval_ms(30), 33);
    assert_eq!(frame_interval_ms(60), 16);
}

#[test]
fn frame_or_blank_keeps_or_blanks() {
    assert_eq!(frame_or_blank(Some(vec![1, 2, 3, 4]), 4), vec![1, 2, 3, 4]);
    assert_eq!(frame_or_blank(None, 8), vec![0u8; 8]);
    assert_eq!(frame_or_blank(None, 0), Vec::<u8>::new());
}

#[test]
fn rescale_capture_without_scale_keeps_pixels() {
    let px = vec![1u8, 2, 3, 4, 5, 6, 7, 8];
    assert_eq!(rescale_capture(px.clone(), 2, 1, None), Some(px));
}

#[test]
fn rescale_capture_halves() {
    // 2x2 physical image down to 1x1.
    let px: Vec<u8> = vec![1, 1, 1, 1, 2, 2, 2, 2, 3, 3, 3, 3, 4, 4, 4, 4];
    let out = rescale_capture(px, 1, 1, Some((2, 2))).expect("resize ran");
    assert_eq!(out.len(), 4);
    assert_eq!(out, vec![4, 4, 4, 4]);
}

#[test]
fn rescale_capture_doubles() {
    let px: Vec<u8> = vec![9, 8, 7, 6];
    let out = rescale_capture(px, 2, 2, Some((1, 1))).expect("resize ran");
    assert_eq!(out, vec![9, 8, 7, 6, 9, 8, 7, 6, 9, 8, 7, 6, 9, 8, 7, 6]);
}

#[test]
fn rescale_capture_short_buffer() {
    assert_eq!(rescale_capture(vec![1, 2, 3], 1, 1, Some((1, 1))), None);
}
