use vstd::prelude::*;
use std::collections::VecDeque;
use std::sync::Arc;
use crate::palette::pack_rgba;

verus! {

/// The three palette bytes the GIF encoder gets for colour key `c`: bits 16
/// to 23, then 8 to 15, then 0 to 7.
pub open spec fn gif_palette_entry(c: u32) -> Seq<u8> {
    seq![(c >> 16u32) as u8, (c >> 8u32) as u8, c as u8]
}

/// The GIF palette bytes for a sequence of colour keys, three per colour.
pub open spec fn gif_palette(colors: Seq<u32>) -> Seq<u8>
    decreases colors.len(),
{
    if colors.len() == 0 {
        Seq::empty()
    } else {
        gif_palette(colors.drop_last()) + gif_palette_entry(colors.last())
    }
}

proof fn lemma_gif_palette_len(colors: Seq<u32>)
    ensures
        gif_palette(colors).len() == 3 * colors.len(),
    decreases colors.len(),
{
    if colors.len() > 0 {
        lemma_gif_palette_len(colors.drop_last());
    }
}

/// Turns the colour keys of a palette into the bytes of a GIF global colour table.
pub fn gif_palette_bytes(color_map: &Vec<u32>) -> (r: Vec<u8>)
    requires
        color_map.len() * 3 <= usize::MAX,
    ensures
        r@ == gif_palette(color_map@),
        r.len() == 3 * color_map.len(),
{
    let mut r: Vec<u8> = Vec::new();
    let mut i: usize = 0;
    while i < color_map.len()
        invariant
            i <= color_map.len(),
            r@ == gif_palette(color_map@.take(i as int)),
        decreases color_map.len() - i,
    {
        let color = color_map[i];
        r.push((color >> 16) as u8);
        r.push((color >> 8) as u8);
        r.push(color as u8);
        assert(color_map@.take(i + 1).drop_last() =~= color_map@.take(i as int));
        i += 1;
    }
    assert(color_map@.take(color_map.len() as int) =~= color_map@);
    proof {
        lemma_gif_palette_len(color_map@);
    }
    r
}

/// Delay between GIF frames, in hundredths of a second, for a frame rate.
pub fn gif_frame_delay(framerate: u16) -> (r: u16)
    requires
        framerate > 0,
    ensures
        r == 1000int / (framerate as int) / 10,
{
    1000 / framerate / 10
}

/// The settings a GIF encoding is run with.
pub struct GifSettings {
    /// Canvas width (the recorded width, truncated to 16 bits).
    pub width: u16,
    /// Canvas height (the recorded height, truncated to 16 bits).
    pub height: u16,
    /// Global colour table, three bytes per colour.
    pub palette: Vec<u8>,
    /// Delay between frames in hundredths of a second.
    pub frame_delay: u16,
}

/// The encoding chosen for a recording.
pub enum Encoding {
    Gif(GifSettings),
    Mp4,
}

/// A recording ready to be encoded: its frames in capture order and the
/// encoding to run on them.
pub struct PostProcessing {
    pub frames: VecDeque<Arc<Vec<u8>>>,
    pub encoding: Encoding,
}

/// Chooses how a recording is encoded: a GIF when a colour map was built,
/// otherwise MP4.
pub fn do_post_processing(
    images: VecDeque<Arc<Vec<u8>>>,
    w: u32,
    h: u32,
    framerate: u16,
    color_map: Option<Vec<u32>>,
) -> (r: PostProcessing)
    requires
        color_map is Some ==> framerate > 0 && color_map->0.len() * 3 <= usize::MAX,
    ensures
        r.frames == images,
        match color_map {
            Some(colors) => r.encoding matches Encoding::Gif(g) && g.width == w as u16 && g.height
                == h as u16 && g.palette@ == gif_palette(colors@) && g.frame_delay == 1000int
                / (framerate as int) / 10,
            None => r.encoding is Mp4,
        },
{
    let encoding = match color_map {
        Some(colors) => Encoding::Gif(
            GifSettings {
                width: w as u16,
                height: h as u16,
                palette: gif_palette_bytes(&colors),
                frame_delay: gif_frame_delay(framerate),
            },
        ),
        None => Encoding::Mp4,
    };
    PostProcessing { frames: images, encoding }
}

/// A frame turned into GIF form: one palette index per pixel, the frame's
/// own colour table and the index of its transparent colour.
pub struct IndexedFrame {
    pub buffer: Vec<u8>,
    pub palette: Option<Vec<u8>>,
    pub transparent: Option<u8>,
}

/// The palette indices `gif::Frame::from_rgba` gives for an RGBA frame.
pub uninterp spec fn gif_index_buffer(rgba: Seq<u8>, width: u16, height: u16) -> Seq<u8>;

/// The frame colour table `gif::Frame::from_rgba` gives for an RGBA frame.
pub uninterp spec fn gif_index_palette(rgba: Seq<u8>, width: u16, height: u16) -> Option<Seq<u8>>;

/// The transparent index `gif::Frame::from_rgba` gives for an RGBA frame.
pub uninterp spec fn gif_index_transparent(rgba: Seq<u8>, width: u16, height: u16) -> Option<u8>;

/// Turns an RGBA frame into GIF form with `gif::Frame::from_rgba` (exact
/// colour table when the frame has at most 256 colours, NeuQuant otherwise),
/// on a copy of the pixels. Claimed: the buffer, colour table and transparent
/// index are the named results of the arguments; the buffer holds one index
/// per pixel; there is always a colour table.
#[verifier::external_body]
fn index_rgba_frame(width: u16, height: u16, rgba: &Vec<u8>) -> (r: IndexedFrame)
    requires
        rgba.len() == width * height * 4,
    ensures
        r.buffer@ == gif_index_buffer(rgba@, width, height),
        r.buffer.len() == width * height,
        r.transparent == gif_index_transparent(rgba@, width, height),
        r.palette is Some,
        match r.palette {
            Some(p) => gif_index_palette(rgba@, width, height) == Some(p@),
            None => gif_index_palette(rgba@, width, height) is None,
        },
{
    let mut pixels = rgba.clone();
    let frame = gif::Frame::from_rgba(width, height, &mut pixels);
    IndexedFrame { buffer: frame.buffer.into_owned(), palette: frame.palette, transparent: frame.transparent }
}

/// Every frame of a recording turned into GIF form at the canvas size of
/// `settings`, in order; `None` when some frame does not hold exactly
/// `width * height` RGBA pixels.
pub fn gif_frames(settings: &GifSettings, frames: &VecDeque<Arc<Vec<u8>>>) -> (r: Option<Vec<IndexedFrame>>)
    ensures
        r is Some <==> forall|k: int|
            0 <= k < frames@.len() ==> (#[trigger] frames@[k])@.len() == settings.width * settings.height * 4,
        r matches Some(v) ==> v.len() == frames@.len() && forall|k: int|
            #![trigger v@[k]]
            0 <= k < frames@.len() ==> {
                &&& v@[k].buffer@ == gif_index_buffer(frames@[k]@, settings.width, settings.height)
                &&& v@[k].transparent == gif_index_transparent(frames@[k]@, settings.width, settings.height)
                &&& v@[k].palette matches Some(p) && gif_index_palette(frames@[k]@, settings.width, settings.height) == Some(p@)
            },
{
    let w: u64 = settings.width as u64;
    let h: u64 = settings.height as u64;
    assert(w * h <= 0xffff * 0xffff) by (nonlinear_arith)
        requires
            w <= 0xffff,
            h <= 0xffff,
    ;
    let expected: u64 = w * h * 4;
    let mut out: Vec<IndexedFrame> = Vec::new();
    let n = frames.len();
    let mut k: usize = 0;
    while k < n
        invariant
            n == frames@.len(),
            k <= n,
            expected == settings.width * settings.height * 4,
            out.len() == k,
            forall|j: int| 0 <= j < k ==> (#[trigger] frames@[j])@.len() == settings.width * settings.height * 4,
            forall|j: int|
                #![trigger out@[j]]
                0 <= j < k ==> {
                    &&& out@[j].buffer@ == gif_index_buffer(frames@[j]@, settings.width, settings.height)
                    &&& out@[j].transparent == gif_index_transparent(frames@[j]@, settings.width, settings.height)
                    &&& out@[j].palette matches Some(p) && gif_index_palette(frames@[j]@, settings.width, settings.height) == Some(p@)
                },
        decreases n - k,
    {
        let frame: &Vec<u8> = &*frames[k];
        if frame.len() as u64 != expected {
            assert(!((frames@[k as int])@.len() == settings.width * settings.height * 4));
            return None;
        }
        out.push(index_rgba_frame(settings.width, settings.height, frame));
        k += 1;
    }
    Some(out)
}

proof fn lemma_gif_entry_bytes(c: u32)
    ensures
        gif_palette_entry(c).len() == 3,
        gif_palette_entry(c)[0] as int == (c / 0x10000) % 0x100,
        gif_palette_entry(c)[1] as int == (c / 0x100) % 0x100,
        gif_palette_entry(c)[2] as int == c % 0x100,
{
    assert((c >> 16u32) as u8 == ((c / 0x10000) % 0x100) as u8 && (c >> 8u32) as u8 == ((c / 0x100) % 0x100) as u8
        && c as u8 == (c % 0x100) as u8) by (bit_vector);
    assert(((c / 0x10000) % 0x100) as u8 as int == (c / 0x10000) % 0x100);
    assert(((c / 0x100) % 0x100) as u8 as int == (c / 0x100) % 0x100);
    assert((c % 0x100) as u8 as int == c % 0x100);
}

/// The GIF colour table has three bytes per palette colour, and bytes
/// `3i`, `3i + 1`, `3i + 2` are bits 16 to 23, 8 to 15 and 0 to 7 of colour
/// `i` of the palette, in the palette's order.
pub proof fn lemma_gif_palette_layout(colors: Seq<u32>)
    ensures
        gif_palette(colors).len() == 3 * colors.len(),
        forall|i: int|
            0 <= i < colors.len() ==> {
                &&& gif_palette(colors)[3 * i] as int == (#[trigger] colors[i] / 0x10000) % 0x100
                &&& gif_palette(colors)[3 * i + 1] as int == (colors[i] / 0x100) % 0x100
                &&& gif_palette(colors)[3 * i + 2] as int == colors[i] % 0x100
            },
    decreases colors.len(),
{
    lemma_gif_palette_len(colors);
    if colors.len() > 0 {
        let rest = colors.drop_last();
        lemma_gif_palette_layout(rest);
        lemma_gif_palette_len(rest);
        lemma_gif_entry_bytes(colors.last());
        assert forall|i: int| 0 <= i < colors.len() implies {
            &&& gif_palette(colors)[3 * i] as int == (#[trigger] colors[i] / 0x10000) % 0x100
            &&& gif_palette(colors)[3 * i + 1] as int == (colors[i] / 0x100) % 0x100
            &&& gif_palette(colors)[3 * i + 2] as int == colors[i] % 0x100
        } by {
            if i < colors.len() - 1 {
                assert(rest[i] == colors[i]);
            }
        }
    }
}

/// The colour table entry the GIF encoder gets for a palette colour packed
/// from pixel channels `(r, g, b, a)` is `g, b, a`: the table is made of the
/// three low bytes of the key, so red does not reach it.
pub proof fn lemma_gif_entry_of_packed_pixel(r: u8, g: u8, b: u8, a: u8)
    ensures
        gif_palette_entry(pack_rgba(r, g, b, a)) == seq![g, b, a],
{
    let c = pack_rgba(r, g, b, a);
    assert(c == ((r as u32) << 24u32 | (g as u32) << 16u32 | (b as u32) << 8u32 | (a as u32))) by (bit_vector)
        requires
            c == (r * 0x1000000 + g * 0x10000 + b * 0x100 + a) as u32,
    ;
    assert((c >> 16u32) as u8 == g && (c >> 8u32) as u8 == b && c as u8 == a) by (bit_vector)
        requires
            c == ((r as u32) << 24u32 | (g as u32) << 16u32 | (b as u32) << 8u32 | (a as u32)),
    ;
}

} // verus!
