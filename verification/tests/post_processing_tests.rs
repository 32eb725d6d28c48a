use std::collections::VecDeque;
use std::sync::Arc;
use screenvidcap::palette::pack_color;
use screenvidcap::post_processing::{do_post_processing, gif_frame_delay, gif_frames, gif_palette_bytes, Encoding, GifSettings};

#[test]
fn palette_bytes_take_low_three_bytes() {
    assert_eq!(gif_palette_bytes(&vec![0x1122_3344, 0xaabb_ccdd]), vec![0x22, 0x33, 0x44, 0xbb, 0xcc, 0xdd]);
    assert_eq!(gif_palette_bytes(&vec![]), Vec::<u8>::new());
}

#[test]
fn palette_bytes_drop_red() {
    let c = pack_color(200, 10, 20, 255);
    assert_eq!(gif_palette_bytes(&vec![c]), vec![10, 20, 255]);
}

#[test]
fn frame_delay_in_hundredths() {
    assert_eq!(gif_frame_delay(30), 3);
    assert_eq!(gif_frame_delay(10), 10);
    assert_eq!(gif_frame_delay(1), 100);
    assert_eq!(gif_frame_delay(200), 0);
}

#[test]
fn gif_when_color_map_given() {
    let mut frames = VecDeque::new();
    frames.push_back(Arc::new(vec![0u8; 4]));
    let r = do_post_processing(frames, 70000, 20, 25, Some(vec![0x0000_ff00]));
    assert_eq!(r.frames.len(), 1);
    match r.encoding {
        Encoding::Gif(g) => {
            assert_eq!(g.width, (70000u32 & 0xffff) as u16);
            assert_eq!(g.height, 20);
            assert_eq!(g.palette, vec![0x00, 0xff, 0x00]);
            assert_eq!(g.frame_delay, 4);
        },
        Encoding::Mp4 => panic!("expected a GIF"),
    }
}

#[test]
fn mp4_without_color_map() {
    let r = do_post_processing(VecDeque::new(), 10, 10, 0, None);
    assert!(r.frames.is_empty());
    assert!(matches!(r.encoding, Encoding::Mp4));
}

#[test]
fn gif_frames_index_each_frame() {
    let settings = GifSettings { width: 2, height: 1, palette: vec![], frame_delay: 3 };
    let mut frames = VecDeque::new();
    frames.push_back(Arc::new(vec![255u8, 0, 0, 255, 0, 0, 255, 255]));
    frames.push_back(Arc::new(vec![255u8, 0, 0, 255, 255, 0, 0, 255]));
    let indexed = gif_frames(&settings, &frames).expect("frames of the canvas size");
    assert_eq!(indexed.len(), 2);
    for f in &indexed {
        assert_eq!(f.buffer.len(), 2);
        assert!(f.palette.is_some());
    }
    // Two colours: red and blue; the table is sorted, blue (0,0,255) first.
    assert_eq!(indexed[0].palette, Some(vec![0, 0, 255, 255, 0, 0]));
    assert_eq!(indexed[0].buffer, vec![1, 0]);
    assert_eq!(indexed[1].buffer, vec![0, 0]);
    assert_eq!(indexed[0].transparent, None);
}

#[test]
fn gif_frames_wrong_size() {
    let settings = GifSettings { width: 2, height: 2, palette: vec![], frame_delay: 3 };
    let mut frames = VecDeque::new();
    frames.push_back(Arc::new(vec![0u8; 16]));
    frames.push_back(Arc::new(vec![0u8; 12]));
    assert!(gif_frames(&settings, &frames).is_none());
}

#[test]
fn gif_frames_transparent_pixel() {
    let settings = GifSettings { width: 1, height: 1, palette: vec![], frame_delay: 0 };
    let mut frames = VecDeque::new();
    frames.push_back(Arc::new(vec![10u8, 20, 30, 0]));
    let indexed = gif_frames(&settings, &frames).unwrap();
    assert_eq!(indexed[0].transparent, Some(0));
    assert_eq!(indexed[0].buffer, vec![0]);
}
