use vstd::prelude::*;
use std::collections::VecDeque;
use std::sync::Arc;
use std::num::NonZeroU32;
use fast_image_resize::{ImageView, ImageViewMut, ResizeAlg, Resizer};
use fast_image_resize::pixels::U8x4;

verus! {

/// Position and logical size of a display on the virtual desktop.
pub struct DisplayBounds {
    pub x: i32,
    pub y: i32,
    pub width: u32,
    pub height: u32,
}

/// The region `(x, y, w, h)` lies within display `d`. Widths are read as
/// `i32`, as the capture code does, and the sums are taken exactly.
pub open spec fn region_within(d: DisplayBounds, x: i32, y: i32, w: u32, h: u32) -> bool {
    &&& x >= d.x
    &&& y >= d.y
    &&& x + (w as i32) <= d.x + (d.width as i32)
    &&& y + (h as i32) <= d.y + (d.height as i32)
}

/// For displays and regions whose sizes read as non-negative `i32` (any real
/// screen), a region lies within a display exactly when the whole of it does:
/// its left and top edges are on or after the display's, and its right and
/// bottom edges on or before the display's.
pub proof fn lemma_region_within_bounds(d: DisplayBounds, x: i32, y: i32, w: u32, h: u32)
    requires
        w <= i32::MAX,
        h <= i32::MAX,
        d.width <= i32::MAX,
        d.height <= i32::MAX,
    ensures
        region_within(d, x, y, w, h) <==> {
            &&& d.x <= x
            &&& d.y <= y
            &&& x + w <= d.x + d.width
            &&& y + h <= d.y + d.height
        },
{
    assert((w as i32) as int == w as int);
    assert((h as i32) as int == h as int);
    assert((d.width as i32) as int == d.width as int);
    assert((d.height as i32) as int == d.height as int);
}

/// The index of the first display that holds the region, if any.
pub fn find_display(displays: &Vec<DisplayBounds>, x: i32, y: i32, w: u32, h: u32) -> (r: Option<usize>)
    ensures
        match r {
            Some(i) => i < displays.len() && region_within(displays@[i as int], x, y, w, h)
                && forall|j: int| 0 <= j < i ==> !region_within(#[trigger] displays@[j], x, y, w, h),
            None => forall|j: int|
                0 <= j < displays.len() ==> !region_within(#[trigger] displays@[j], x, y, w, h),
        },
{
    let w_i32 = w as i32;
    let h_i32 = h as i32;
    let mut i: usize = 0;
    while i < displays.len()
        invariant
            i <= displays.len(),
            w_i32 == w as i32,
            h_i32 == h as i32,
            forall|j: int| 0 <= j < i ==> !region_within(#[trigger] displays@[j], x, y, w, h),
        decreases displays.len() - i,
    {
        let d = &displays[i];
        let width_i32 = d.width as i32;
        let height_i32 = d.height as i32;
        if x >= d.x && y >= d.y && (x as i64) + (w_i32 as i64) <= (d.x as i64) + (width_i32 as i64)
            && (y as i64) + (h_i32 as i64) <= (d.y as i64) + (height_i32 as i64) {
            return Some(i);
        }
        i += 1;
    }
    None
}

/// Bytes in one RGBA frame of `w` by `h` pixels.
pub fn frame_size_bytes(w: u32, h: u32) -> (r: usize)
    requires
        w * h * 4 <= u32::MAX,
    ensures
        r == w * h * 4,
{
    assert(w * h * 4 <= u32::MAX);
    assert(0 <= w * h) by (nonlinear_arith);
    (w * h * 4) as usize
}

/// Milliseconds between two captured frames.
pub fn frame_interval_ms(framerate: u16) -> (r: u16)
    requires
        framerate > 0,
    ensures
        r == 1000int / (framerate as int),
{
    1000 / framerate
}

/// The frame kept for one capture attempt: the captured pixels, or an
/// all-zero (black) frame of `size` bytes when nothing could be captured.
pub fn frame_or_blank(captured: Option<Vec<u8>>, size: usize) -> (r: Vec<u8>)
    requires
        captured matches Some(v) ==> v.len() == size,
    ensures
        match captured {
            Some(v) => r@ == v@,
            None => r@ == Seq::new(size as nat, |_i: int| 0u8),
        },
        r.len() == size,
{
    match captured {
        Some(v) => v,
        None => {
            let mut blank: Vec<u8> = Vec::new();
            let mut i: usize = 0;
            while i < size
                invariant
                    i <= size,
                    blank@ == Seq::new(i as nat, |_i: int| 0u8),
                decreases size - i,
            {
                blank.push(0);
                i += 1;
            }
            blank
        },
    }
}

/// What nearest-neighbour resizing turns an RGBA image of
/// `src_width` by `src_height` pixels into at `dst_width` by `dst_height`.
pub uninterp spec fn nearest_resized(
    src: Seq<u8>,
    src_width: u32,
    src_height: u32,
    dst_width: u32,
    dst_height: u32,
) -> Seq<u8>;

/// Resizes an RGBA image with `fast_image_resize`: `Resizer::new(ResizeAlg::Nearest)`
/// and `Resizer::resize` between `U8x4` views made by `ImageView::from_pixels` and
/// `ImageViewMut::from_pixels`. Claimed: there is a result exactly when the buffer
/// holds at least `src_width * src_height` pixels; it has `dst_width * dst_height * 4`
/// bytes and is `nearest_resized` of the arguments; it equals the first
/// `src_width * src_height * 4` source bytes when the sizes agree.
#[verifier::external_body]
fn resize_nearest(pixels: Vec<u8>, src_width: u32, src_height: u32, dst_width: u32, dst_height: u32) -> (r: Option<Vec<u8>>)
    requires
        src_width > 0,
        src_height > 0,
        dst_width > 0,
        dst_height > 0,
        src_width * src_height <= u32::MAX,
        dst_width * dst_height <= u32::MAX,
        src_width * src_height * 4 <= usize::MAX,
        dst_width * dst_height * 4 <= usize::MAX,
    ensures
        r is Some <==> pixels.len() >= src_width * src_height * 4,
        r matches Some(v) ==> v@ == nearest_resized(pixels@, src_width, src_height, dst_width, dst_height)
            && v.len() == dst_width * dst_height * 4
            && (src_width == dst_width && src_height == dst_height
                ==> v@ == pixels@.subrange(0, src_width * src_height * 4)),
{
    let src: Vec<U8x4> = pixels.chunks_exact(4).map(|b| U8x4::new(u32::from_ne_bytes(b.try_into().unwrap()))).collect();
    let mut dst = vec![U8x4::new(0); (dst_width * dst_height) as usize];
    let src_view = ImageView::from_pixels(NonZeroU32::new(src_width)?, NonZeroU32::new(src_height)?, &src).ok()?;
    let dst_view = ImageViewMut::from_pixels(NonZeroU32::new(dst_width)?, NonZeroU32::new(dst_height)?, &mut dst).ok()?;
    Resizer::new(ResizeAlg::Nearest).resize(&src_view.into(), &mut dst_view.into()).ok()?;
    Some(dst.iter().flat_map(|p| p.0.to_ne_bytes()).collect())
}

/// Brings a captured RGBA image to the recorded size. `physical` is the size
/// the display delivered when its scale factor is not one; the image is then
/// resized (nearest neighbour) to `width` by `height`. Without it the image is
/// kept as it is. When resizing, there is a result exactly when the buffer
/// holds at least `pw * ph` pixels.
pub fn rescale_capture(pixels: Vec<u8>, width: u32, height: u32, physical: Option<(u32, u32)>) -> (r: Option<Vec<u8>>)
    requires
        physical matches Some((pw, ph)) ==> {
            &&& pw > 0
            &&& ph > 0
            &&& width > 0
            &&& height > 0
            &&& pw * ph <= u32::MAX
            &&& width * height <= u32::MAX
            &&& pw * ph * 4 <= usize::MAX
            &&& width * height * 4 <= usize::MAX
        },
    ensures
        match physical {
            None => r == Some(pixels),
            Some((pw, ph)) => {
                &&& r is Some <==> pixels.len() >= pw * ph * 4
                &&& r matches Some(v) ==> v@ == nearest_resized(pixels@, pw, ph, width, height)
                    && v.len() == width * height * 4
            },
        },
{
    match physical {
        None => Some(pixels),
        Some((pw, ph)) => resize_nearest(pixels, pw, ph, width, height),
    }
}

/// The pixel bytes the `png` decoder gives for a PNG file, or `None` when it
/// refuses the file.
pub uninterp spec fn png_pixels(file: Seq<u8>) -> Option<Seq<u8>>;

/// Decodes a PNG file with `png::Decoder` (`read_info`, then `next_frame` into a
/// buffer of `output_buffer_size` bytes, cut to the frame's `buffer_size`).
/// Claimed: the result is `png_pixels` of the file. For the 8-bit RGBA files the
/// capture library writes, these are the RGBA bytes; that is not claimed here.
#[verifier::external_body]
fn decode_png(file: &Vec<u8>) -> (r: Option<Vec<u8>>)
    ensures
        match r {
            Some(v) => png_pixels(file@) == Some(v@),
            None => png_pixels(file@) is None,
        },
{
    let mut reader = png::Decoder::new(file.as_slice()).read_info().ok()?;
    let mut buf = vec![0; reader.output_buffer_size()];
    let info = reader.next_frame(&mut buf).ok()?;
    buf.truncate(info.buffer_size());
    Some(buf)
}

/// Why a captured image could not be turned into a frame.
pub enum CaptureError {
    /// The capture library's PNG could not be decoded.
    Undecodable,
    /// The decoded image holds fewer pixels than the display's physical size.
    ShortImage,
}

/// Turns the PNG a display capture returned into the frame of `width` by
/// `height` pixels: decodes it and, for a display whose scale factor is not one
/// (`physical` is then the size it delivered), resizes it.
pub fn captured_frame(file: &Vec<u8>, width: u32, height: u32, physical: Option<(u32, u32)>) -> (r: Result<Vec<u8>, CaptureError>)
    requires
        physical matches Some((pw, ph)) ==> {
            &&& pw > 0
            &&& ph > 0
            &&& width > 0
            &&& height > 0
            &&& pw * ph <= u32::MAX
            &&& width * height <= u32::MAX
            &&& pw * ph * 4 <= usize::MAX
            &&& width * height * 4 <= usize::MAX
        },
    ensures
        match png_pixels(file@) {
            None => r matches Err(CaptureError::Undecodable),
            Some(px) => match physical {
                None => r matches Ok(v) && v@ == px,
                Some((pw, ph)) => if px.len() >= pw * ph * 4 {
                    r matches Ok(v) && v@ == nearest_resized(px, pw, ph, width, height) && v.len()
                        == width * height * 4
                } else {
                    r matches Err(CaptureError::ShortImage)
                },
            },
        },
{
    let pixels = match decode_png(file) {
        Some(p) => p,
        None => return Err(CaptureError::Undecodable),
    };
    match rescale_capture(pixels, width, height, physical) {
        Some(v) => Ok(v),
        None => Err(CaptureError::ShortImage),
    }
}

/// What the capture worker does with one capture attempt.
pub enum FrameDecision {
    /// Keep this frame.
    Keep(Vec<u8>),
    /// Look the displays up again and capture once more.
    RefreshAndRetry,
}

/// A captured frame of the wrong size.
pub struct WrongFrameSize {
    pub expected: usize,
    pub got: usize,
}

/// Decides on one capture attempt of a frame of `size` bytes: a captured frame
/// of the right size is kept; a failed first attempt is retried after the
/// displays are looked up again; a failed retry gives a black frame; a
/// captured frame of another size is an error.
pub fn decide_frame(captured: Option<Vec<u8>>, retried: bool, size: usize) -> (r: Result<FrameDecision, WrongFrameSize>)
    ensures
        match captured {
            Some(v) => if v.len() == size {
                r matches Ok(FrameDecision::Keep(f)) && f@ == v@
            } else {
                r matches Err(e) && e.expected == size && e.got == v.len()
            },
            None => if retried {
                r matches Ok(FrameDecision::Keep(f)) && f@ == Seq::new(size as nat, |_i: int| 0u8)
            } else {
                r matches Ok(FrameDecision::RefreshAndRetry)
            },
        },
{
    match captured {
        Some(v) => {
            if v.len() != size {
                return Err(WrongFrameSize { expected: size, got: v.len() });
            }
            Ok(FrameDecision::Keep(frame_or_blank(Some(v), size)))
        },
        None => {
            if !retried {
                return Ok(FrameDecision::RefreshAndRetry);
            }
            Ok(FrameDecision::Keep(frame_or_blank(None, size)))
        },
    }
}

/// A second handle on a shared frame, with `Arc::clone`. Claimed: it is the
/// same frame.
#[verifier::external_body]
fn share_frame(frame: &Arc<Vec<u8>>) -> (r: Arc<Vec<u8>>)
    ensures
        r == *frame,
{
    Arc::clone(frame)
}

/// Keeps a frame: appends it to the recording and, when recording a GIF,
/// hands back a second handle on it for the palette worker's stack.
pub fn keep_frame(recording: &mut VecDeque<Arc<Vec<u8>>>, frame: Vec<u8>, gif: bool) -> (r: Option<Arc<Vec<u8>>>)
    ensures
        final(recording)@.len() == old(recording)@.len() + 1,
        final(recording)@.drop_last() == old(recording)@,
        final(recording)@.last()@ == frame@,
        r is Some <==> gif,
        r matches Some(shared) ==> shared == final(recording)@.last(),
{
    let kept = Arc::new(frame);
    let shared = if gif {
        Some(share_frame(&kept))
    } else {
        None
    };
    recording.push_back(kept);
    assert(recording@.drop_last() =~= old(recording)@);
    shared
}

} // verus!
