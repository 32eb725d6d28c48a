use std::sync::Arc;
use screenvidcap::capture::{frame_or_blank, frame_size_bytes};
use screenvidcap::palette::{pack_color, palette_poll_interval_ms, ColorFrequencies, PALETTE_SIZE};
use screenvidcap::stack::Stack;

fn frame_of(colors: &[(u8, u8, u8, u8)]) -> Vec<u8> {
    let mut v = Vec::new();
    for &(r, g, b, a) in colors {
        v.extend_from_slice(&[r, g, b, a]);
    }
    v
}

#[test]
fn pack_color_puts_red_highest() {
    assert_eq!(pack_color(0x01, 0x02, 0x03, 0x04), 0x0102_0304);
    assert_eq!(pack_color(0xff, 0, 0, 0), 0xff00_0000);
    assert_eq!(pack_color(0, 0, 0, 0xff), 0x0000_00ff);
}

#[test]
fn add_frame_counts_each_pixel() {
    let mut f = ColorFrequencies::new();
    let img = frame_of(&[(1, 2, 3, 4), (1, 2, 3, 4), (9, 9, 9, 9)]);
    assert!(f.add_frame(&img).is_ok());
    assert_eq!(f.frequency_of(0x0102_0304), 2);
    assert_eq!(f.frequency_of(0x0909_0909), 1);
    assert_eq!(f.frequency_of(0), 0);
    assert!(f.add_frame(&img).is_ok());
    assert_eq!(f.frequency_of(0x0102_0304), 4);
}

#[test]
fn add_frame_skips_partial_pixels() {
    let mut f = ColorFrequencies::new();
    let img = vec![1u8, 2, 3, 4, 5];
    assert!(f.add_frame(&img).is_ok());
    assert_eq!(f.frequency_of(0x0102_0304), 0);
    assert!(f.palette().is_empty());
}

#[test]
fn add_stack_counts_every_frame() {
    let a = Arc::new(frame_of(&[(1, 1, 1, 1)]));
    let b = Arc::new(frame_of(&[(1, 1, 1, 1), (2, 2, 2, 2)]));
    let bad = Arc::new(vec![7u8; 6]);
    let s = Stack::push(None, a);
    let s = Stack::push(s, bad);
    let s = Stack::push(s, b);
    let mut f = ColorFrequencies::new();
    assert!(f.add_stack(s).is_ok());
    assert_eq!(f.frequency_of(0x0101_0101), 2);
    assert_eq!(f.frequency_of(0x0202_0202), 1);
    assert_eq!(f.frequency_of(0x0707_0707), 0);
}

#[test]
fn stack_push_keeps_order() {
    let s = Stack::push(None, 1u8);
    let s = Stack::push(s, 2u8);
    let s = Stack::push(s, 3u8);
    let mut seen = Vec::new();
    let mut cur = s;
    while let Some(node) = cur {
        seen.push(node.item);
        cur = node.next;
    }
    assert_eq!(seen, vec![3, 2, 1]);
}

#[test]
fn palette_small_holds_every_color() {
    let mut f = ColorFrequencies::new();
    let img = frame_of(&[(1, 0, 0, 0), (2, 0, 0, 0), (2, 0, 0, 0), (3, 0, 0, 0)]);
    f.add_frame(&img).ok().unwrap();
    let mut p = f.palette();
    p.sort();
    assert_eq!(p, vec![0x0100_0000, 0x0200_0000, 0x0300_0000]);
}

#[test]
fn palette_large_keeps_most_frequent() {
    // 300 colours; colour i occurs i + 1 times.
    let mut pixels = Vec::new();
    for i in 0u32..300 {
        for _ in 0..=i {
            pixels.extend_from_slice(&i.to_be_bytes());
        }
    }
    let mut f = ColorFrequencies::new();
    f.add_frame(&pixels).ok().unwrap();
    let p = f.palette();
    assert_eq!(p.len(), PALETTE_SIZE);
    let expected: Vec<u32> = (44u32..300).rev().collect();
    assert_eq!(p, expected);
}

#[test]
fn palette_exactly_full() {
    let mut pixels = Vec::new();
    for i in 0u32..256 {
        pixels.extend_from_slice(&i.to_be_bytes());
    }
    let mut f = ColorFrequencies::new();
    f.add_frame(&pixels).ok().unwrap();
    let mut p = f.palette();
    p.sort();
    assert_eq!(p, (0u32..256).collect::<Vec<u32>>());
}

#[test]
fn palette_colors_come_from_frames() {
    let a = Arc::new(frame_of(&[(10, 20, 30, 40), (50, 60, 70, 80)]));
    let s = Stack::push(None, a);
    let mut f = ColorFrequencies::new();
    f.add_stack(s).ok().unwrap();
    for c in f.palette() {
        assert!(c == pack_color(10, 20, 30, 40) || c == pack_color(50, 60, 70, 80));
    }
}

#[test]
fn poll_interval_is_two_frames() {
    assert_eq!(palette_poll_interval_ms(30), 66);
    assert_eq!(palette_poll_interval_ms(1), 2000);
    assert_eq!(palette_poll_interval_ms(1000), 2);
}

#[test]
fn recorded_frames_are_counted() {
    let size = frame_size_bytes(3, 2);
    let blank = frame_or_blank(None, size);
    let mut f = ColorFrequencies::new();
    f.add_frame(&blank).ok().unwrap();
    assert_eq!(f.frequency_of(0), 6);
    assert_eq!(f.palette(), vec![0]);
}

#[test]
fn counts_ignore_order_and_split() {
    let a = Arc::new(frame_of(&[(1, 1, 1, 1), (2, 2, 2, 2)]));
    let b = Arc::new(frame_of(&[(2, 2, 2, 2), (3, 3, 3, 3)]));
    let c = Arc::new(frame_of(&[(1, 1, 1, 1)]));

    // One poll: stack c, b, a (a on top).
    let s = Stack::push(None, c.clone());
    let s = Stack::push(s, b.clone());
    let s = Stack::push(s, a.clone());
    let mut one = ColorFrequencies::new();
    one.add_stack(s).ok().unwrap();

    // Two polls in another order: first b, then a and c.
    let mut two = ColorFrequencies::new();
    two.add_stack(Stack::push(None, b)).ok().unwrap();
    let s = Stack::push(None, a);
    let s = Stack::push(s, c);
    two.add_stack(s).ok().unwrap();

    for color in [0x0101_0101u32, 0x0202_0202, 0x0303_0303, 0] {
        assert_eq!(one.frequency_of(color), two.frequency_of(color));
    }
    let mut p1 = one.palette();
    let mut p2 = two.palette();
    p1.sort();
    p2.sort();
    assert_eq!(p1, p2);
}
