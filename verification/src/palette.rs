use vstd::prelude::*;
use std::collections::HashMap;
use std::sync::Arc;
use crate::stack::{Stack, stack_items, push_all, lemma_push_all_items};
use vstd::std_specs::iter::IteratorSpec;

verus! {

broadcast use vstd::std_specs::hash::group_hash_axioms;

/// The most colours a palette holds.
pub const PALETTE_SIZE: usize = 256;

/// The colour key of one RGBA pixel: red in the highest byte, alpha in the lowest.
pub open spec fn pack_rgba(r: u8, g: u8, b: u8, a: u8) -> u32 {
    (r * 0x1000000 + g * 0x10000 + b * 0x100 + a) as u32
}

/// The colour key of pixel `p` of an RGBA byte buffer.
pub open spec fn pixel_color(img: Seq<u8>, p: int) -> u32 {
    pack_rgba(img[4 * p], img[4 * p + 1], img[4 * p + 2], img[4 * p + 3])
}

/// How many of the first `n` pixels of `img` have colour `c`.
pub open spec fn pixel_count(img: Seq<u8>, n: nat, c: u32) -> nat
    decreases n,
{
    if n == 0 {
        0
    } else {
        pixel_count(img, (n - 1) as nat, c) + if pixel_color(img, n - 1) == c {
            1nat
        } else {
            0nat
        }
    }
}

/// How often colour `c` occurs in a frame; a frame whose length is not a
/// whole number of pixels is skipped and counts nothing.
pub open spec fn frame_color_count(img: Seq<u8>, c: u32) -> nat {
    if img.len() % 4 == 0 {
        pixel_count(img, img.len() / 4, c)
    } else {
        0
    }
}

/// How often colour `c` occurs over a sequence of frames.
pub open spec fn frames_color_count(frames: Seq<Arc<Vec<u8>>>, c: u32) -> nat
    decreases frames.len(),
{
    if frames.len() == 0 {
        0
    } else {
        frame_color_count(frames[0]@, c) + frames_color_count(frames.drop_first(), c)
    }
}

proof fn lemma_pack_bits(r: u8, g: u8, b: u8, a: u8)
    ensures
        ((r as u32) << 24u32 | (g as u32) << 16u32 | (b as u32) << 8u32 | (a as u32))
            == r * 0x1000000 + g * 0x10000 + b * 0x100 + a,
{
    assert(((r as u32) << 24u32 | (g as u32) << 16u32 | (b as u32) << 8u32 | (a as u32))
        == r * 0x1000000 + g * 0x10000 + b * 0x100 + a) by (bit_vector);
}

/// Packs the four channels of a pixel into its colour key.
pub fn pack_color(r: u8, g: u8, b: u8, a: u8) -> (c: u32)
    ensures
        c == pack_rgba(r, g, b, a),
{
    proof {
        lemma_pack_bits(r, g, b, a);
    }
    (r as u32) << 24 | (g as u32) << 16 | (b as u32) << 8 | (a as u32)
}

/// Milliseconds the palette worker waits between two looks at the frame
/// stack: two frames' time.
pub fn palette_poll_interval_ms(framerate: u16) -> (r: u16)
    requires
        framerate > 0,
    ensures
        r == 1000int / (framerate as int) * 2,
{
    1000 / framerate * 2
}

/// At most `n` of the first `n` pixels have any one colour.
pub proof fn lemma_pixel_count_bound(img: Seq<u8>, n: nat, c: u32)
    ensures
        pixel_count(img, n, c) <= n,
    decreases n,
{
    if n > 0 {
        lemma_pixel_count_bound(img, (n - 1) as nat, c);
    }
}

/// A colour key keeps each channel in a byte of its own: red in bits 24 to
/// 31, green in 16 to 23, blue in 8 to 15, alpha in 0 to 7. So pixels that
/// differ in any channel get different keys.
pub proof fn lemma_pack_rgba_channels(r: u8, g: u8, b: u8, a: u8)
    ensures
        (pack_rgba(r, g, b, a) >> 24u32) as u8 == r,
        (pack_rgba(r, g, b, a) >> 16u32) as u8 == g,
        (pack_rgba(r, g, b, a) >> 8u32) as u8 == b,
        pack_rgba(r, g, b, a) as u8 == a,
        pack_rgba(r, g, b, a) as int == r * 0x1000000 + g * 0x10000 + b * 0x100 + a,
{
    let c = pack_rgba(r, g, b, a);
    lemma_pack_bits(r, g, b, a);
    assert(c == ((r as u32) << 24u32 | (g as u32) << 16u32 | (b as u32) << 8u32 | (a as u32))) by (bit_vector)
        requires
            c == (r * 0x1000000 + g * 0x10000 + b * 0x100 + a) as u32,
    ;
    assert((c >> 24u32) as u8 == r && (c >> 16u32) as u8 == g && (c >> 8u32) as u8 == b && c as u8 == a) by (bit_vector)
        requires
            c == ((r as u32) << 24u32 | (g as u32) << 16u32 | (b as u32) << 8u32 | (a as u32)),
    ;
}

/// The key of pixel `p` holds that pixel's four bytes, first byte highest.
pub proof fn lemma_pixel_color_bytes(img: Seq<u8>, p: int)
    requires
        0 <= p,
        4 * p + 3 < img.len(),
    ensures
        (pixel_color(img, p) >> 24u32) as u8 == img[4 * p],
        (pixel_color(img, p) >> 16u32) as u8 == img[4 * p + 1],
        (pixel_color(img, p) >> 8u32) as u8 == img[4 * p + 2],
        pixel_color(img, p) as u8 == img[4 * p + 3],
{
    lemma_pack_rgba_channels(img[4 * p], img[4 * p + 1], img[4 * p + 2], img[4 * p + 3]);
}

/// How many of the first `n` pixels have colour `c` is the plain number of
/// them: the length of the colours of those pixels kept where equal to `c`.
pub proof fn lemma_pixel_count_is_tally(img: Seq<u8>, n: nat, c: u32)
    ensures
        pixel_count(img, n, c) == Seq::new(n, |p: int| pixel_color(img, p)).filter(|k: u32| k == c).len(),
    decreases n,
{
    let colors = Seq::new(n, |p: int| pixel_color(img, p));
    reveal(Seq::filter);
    if n > 0 {
        lemma_pixel_count_is_tally(img, (n - 1) as nat, c);
        assert(colors.drop_last() =~= Seq::new((n - 1) as nat, |p: int| pixel_color(img, p)));
        assert(colors.last() == pixel_color(img, n - 1));
    }
}

/// A frame counts, for colour `c`, exactly the number of its whole pixels of
/// that colour; a frame whose length is not a multiple of four counts nothing.
pub proof fn lemma_frame_count_is_tally(img: Seq<u8>, c: u32)
    ensures
        img.len() % 4 == 0 ==> frame_color_count(img, c)
            == Seq::new(img.len() / 4, |p: int| pixel_color(img, p)).filter(|k: u32| k == c).len(),
        img.len() % 4 != 0 ==> frame_color_count(img, c) == 0,
{
    lemma_pixel_count_is_tally(img, img.len() / 4, c);
}

proof fn lemma_pixel_count_mono(img: Seq<u8>, m: nat, n: nat, c: u32)
    requires
        m <= n,
    ensures
        pixel_count(img, m, c) <= pixel_count(img, n, c),
    decreases n,
{
    if m < n {
        lemma_pixel_count_mono(img, m, (n - 1) as nat, c);
    }
}


/// `palette` is a palette chosen from the colour counts `m`: distinct colours
/// that were seen; all of them when at most `PALETTE_SIZE` were seen, otherwise
/// `PALETTE_SIZE` of the most frequent, ordered from most to least frequent,
/// with no colour left out that is more frequent than one taken.
pub open spec fn is_palette_of(m: Map<u32, u32>, palette: Seq<u32>) -> bool {
    &&& palette.no_duplicates()
    &&& forall|i: int| 0 <= i < palette.len() ==> m.contains_key(#[trigger] palette[i])
    &&& if m.len() <= PALETTE_SIZE {
        &&& palette.len() == m.len()
        &&& forall|c: u32| #[trigger] m.contains_key(c) ==> palette.contains(c)
    } else {
        &&& palette.len() == PALETTE_SIZE
        &&& forall|i: int, j: int|
            0 <= i < j < palette.len() ==> m[#[trigger] palette[i]] >= m[#[trigger] palette[j]]
        &&& forall|c: u32, i: int|
            #![trigger m[c], palette[i]]
            m.contains_key(c) && !palette.contains(c) && 0 <= i < palette.len() ==> m[c] <= m[palette[i]]
    }
}

/// `e` lists the (colour, count) pairs of `m`, each colour once.
spec fn entries_of(m: Map<u32, u32>, e: Seq<(u32, u32)>) -> bool {
    &&& e.len() == m.len()
    &&& forall|j: int| #![trigger e[j]] 0 <= j < e.len() ==> m.contains_key(e[j].0) && m[e[j].0] == e[j].1
    &&& forall|a: int, b: int| #![trigger e[a], e[b]] 0 <= a < e.len() && 0 <= b < e.len() && a != b ==> e[a].0 != e[b].0
    &&& forall|c: u32| #[trigger] m.contains_key(c) ==> exists|j: int| 0 <= j < e.len() && (#[trigger] e[j]).0 == c
}

proof fn lemma_swap_entries(m: Map<u32, u32>, e: Seq<(u32, u32)>, i: int, j: int)
    requires
        entries_of(m, e),
        0 <= i < e.len(),
        0 <= j < e.len(),
    ensures
        entries_of(m, e.update(i, e[j]).update(j, e[i])),
{
    let f = e.update(i, e[j]).update(j, e[i]);
    assert forall|k: int| 0 <= k < f.len() implies f[k] == e[if k == i { j } else if k == j { i } else { k }] by {}
    assert forall|a: int, b: int| 0 <= a < f.len() && 0 <= b < f.len() && a != b implies f[a].0 != f[b].0 by {
        let a0 = if a == i { j } else if a == j { i } else { a };
        let b0 = if b == i { j } else if b == j { i } else { b };
        assert(f[a] == e[a0]);
        assert(f[b] == e[b0]);
    }
    assert forall|c: u32| #[trigger] m.contains_key(c) implies exists|k: int| 0 <= k < f.len() && (#[trigger] f[k]).0 == c by {
        let w = choose|k: int| 0 <= k < e.len() && (#[trigger] e[k]).0 == c;
        let k = if w == i { j } else if w == j { i } else { w };
        assert(f[k] == e[w]);
    }
}

proof fn lemma_pixel_count_witness(img: Seq<u8>, n: nat, c: u32)
    requires
        pixel_count(img, n, c) > 0,
    ensures
        exists|p: int| 0 <= p < n && pixel_color(img, p) == c,
    decreases n,
{
    if pixel_color(img, n - 1) != c {
        lemma_pixel_count_witness(img, (n - 1) as nat, c);
        let p = choose|p: int| 0 <= p < n - 1 && pixel_color(img, p) == c;
        assert(0 <= p < n && pixel_color(img, p) == c);
    }
}

/// Colour `c` is the colour of some pixel of some whole-pixel frame of `frames`.
pub open spec fn occurs_in_frames(frames: Seq<Arc<Vec<u8>>>, c: u32) -> bool {
    exists|f: int, p: int|
        0 <= f < frames.len() && (#[trigger] frames[f])@.len() % 4 == 0 && 0 <= p < frames[f]@.len() / 4
            && #[trigger] pixel_color(frames[f]@, p) == c
}

proof fn lemma_frames_count_witness(frames: Seq<Arc<Vec<u8>>>, c: u32)
    requires
        frames_color_count(frames, c) > 0,
    ensures
        occurs_in_frames(frames, c),
    decreases frames.len(),
{
    if frame_color_count(frames[0]@, c) > 0 {
        lemma_pixel_count_witness(frames[0]@, frames[0]@.len() / 4, c);
        let p = choose|p: int| 0 <= p < frames[0]@.len() / 4 && pixel_color(frames[0]@, p) == c;
        assert(frames[0]@.len() % 4 == 0 && pixel_color(frames[0]@, p) == c);
    } else {
        let rest = frames.drop_first();
        lemma_frames_count_witness(rest, c);
        let (f, p) = choose|f: int, p: int|
            0 <= f < rest.len() && (#[trigger] rest[f])@.len() % 4 == 0 && 0 <= p < rest[f]@.len() / 4
                && #[trigger] pixel_color(rest[f]@, p) == c;
        assert(rest[f] == frames[f + 1]);
        assert(frames[f + 1]@.len() % 4 == 0 && pixel_color(frames[f + 1]@, p) == c);
    }
}

/// A colour that occurs in some whole-pixel frame is counted for that frame
/// sequence: counting misses no pixel.
proof fn lemma_occurs_counted(frames: Seq<Arc<Vec<u8>>>, c: u32, f: int, p: int)
    requires
        0 <= f < frames.len(),
        frames[f]@.len() % 4 == 0,
        0 <= p < frames[f]@.len() / 4,
        pixel_color(frames[f]@, p) == c,
    ensures
        frames_color_count(frames, c) > 0,
    decreases frames.len(),
{
    if f == 0 {
        lemma_pixel_present_counted(frames[0]@, (frames[0]@.len() / 4) as nat, c, p);
    } else {
        lemma_occurs_counted(frames.drop_first(), c, f - 1, p);
    }
}

proof fn lemma_pixel_present_counted(img: Seq<u8>, n: nat, c: u32, p: int)
    requires
        0 <= p < n,
        pixel_color(img, p) == c,
    ensures
        pixel_count(img, n, c) > 0,
    decreases n,
{
    if p < n - 1 {
        lemma_pixel_present_counted(img, (n - 1) as nat, c, p);
    }
}

/// A colour whose count would pass `u32::MAX`.
pub struct CountOverflow {
    pub color: u32,
}

/// Per-colour pixel counts gathered from frames.
pub struct ColorFrequencies {
    counts: HashMap<u32, u32>,
}

impl View for ColorFrequencies {
    type V = Map<u32, u32>;

    closed spec fn view(&self) -> Map<u32, u32> {
        self.counts@
    }
}

impl ColorFrequencies {
    /// Every colour held has been seen at least once.
    pub open spec fn wf(&self) -> bool {
        forall|c: u32| #[trigger] self@.contains_key(c) ==> self@[c] > 0
    }

    /// How often colour `c` has been seen (zero for a colour never seen).
    pub open spec fn frequency(&self, c: u32) -> nat {
        if self@.contains_key(c) {
            self@[c] as nat
        } else {
            0
        }
    }

    /// No colour seen yet.
    pub fn new() -> (r: Self)
        ensures
            r.wf(),
            r@ == Map::<u32, u32>::empty(),
    {
        ColorFrequencies { counts: HashMap::new() }
    }

    /// How often colour `color` has been counted.
    pub fn frequency_of(&self, color: u32) -> (r: u32)
        ensures
            r == self.frequency(color),
    {
        proof {
            assert(vstd::std_specs::hash::obeys_key_model::<u32>());
            assert(vstd::std_specs::hash::builds_valid_hashers::<std::hash::RandomState>());
        }
        match self.counts.get(&color) {
            Some(v) => *v,
            None => 0,
        }
    }

    /// Counts the pixels of one RGBA frame. A frame whose length is not a
    /// multiple of four is skipped. Fails, with the colour concerned, when a
    /// count would pass `u32::MAX`; the counts are then left partly updated.
    pub fn add_frame(&mut self, img: &Vec<u8>) -> (r: Result<(), CountOverflow>)
        requires
            old(self).wf(),
        ensures
            final(self).wf(),
            r is Ok <==> forall|c: u32| old(self).frequency(c) + frame_color_count(img@, c) <= u32::MAX,
            r is Ok ==> forall|c: u32| #[trigger] final(self).frequency(c)
                == old(self).frequency(c) + frame_color_count(img@, c),
            r matches Err(e) ==> old(self).frequency(e.color) + frame_color_count(img@, e.color) > u32::MAX,
    {
        let len = img.len();
        if len % 4 != 0 {
            return Ok(());
        }
        let n = len / 4;
        let mut p: usize = 0;
        while p < n
            invariant
                len == img@.len(),
                n == len / 4,
                len % 4 == 0,
                p <= n,
                self.wf(),
                forall|c: u32| #[trigger] self.frequency(c) == old(self).frequency(c) + pixel_count(img@, p as nat, c),
            decreases n - p,
        {
            assert(4 * p + 3 < len) by (nonlinear_arith)
                requires
                    p < n,
                    n == len / 4,
            ;
            let i = 4 * p;
            let color = pack_color(img[i], img[i + 1], img[i + 2], img[i + 3]);
            assert(color == pixel_color(img@, p as int));
            proof {
                lemma_pixel_count_mono(img@, (p + 1) as nat, n as nat, color);
                assert(frame_color_count(img@, color) == pixel_count(img@, n as nat, color));
                assert(pixel_count(img@, (p + 1) as nat, color) == pixel_count(img@, p as nat, color) + 1);
                assert(vstd::std_specs::hash::obeys_key_model::<u32>());
                assert(vstd::std_specs::hash::builds_valid_hashers::<std::hash::RandomState>());
            }
            let ghost before = self.counts@;
            let ghost prev = *self;
            let seen: Option<u32> = match self.counts.get(&color) {
                Some(v) => Some(*v),
                None => None,
            };
            let updated: u32 = match seen {
                Some(v) => {
                    assert(self.frequency(color) == v);
                    if v == u32::MAX {
                        return Err(CountOverflow { color });
                    }
                    v + 1
                },
                None => 1,
            };
            self.counts.insert(color, updated);
            assert(self.counts@ == before.insert(color, updated));
            assert forall|c: u32| #[trigger] self@.contains_key(c) implies self@[c] > 0 by {
                if c != color {
                    assert(before.contains_key(c));
                }
            }
            assert forall|c: u32| #[trigger] self.frequency(c) == old(self).frequency(c)
                + pixel_count(img@, (p + 1) as nat, c) by {
                assert(prev.frequency(c) == old(self).frequency(c) + pixel_count(img@, p as nat, c));
                if c != color {
                    assert(self.frequency(c) == prev.frequency(c));
                }
            }
            p += 1;
        }
        proof {
            assert forall|c: u32| #[trigger] self.frequency(c)
                == old(self).frequency(c) + frame_color_count(img@, c) by {}
            assert forall|c: u32| old(self).frequency(c) + frame_color_count(img@, c) <= u32::MAX by {
                assert(self.frequency(c) == old(self).frequency(c) + frame_color_count(img@, c));
            }
        }
        Ok(())
    }

    fn entries(&self) -> (e: Vec<(u32, u32)>)
        ensures
            entries_of(self@, e@),
    {
        let mut e: Vec<(u32, u32)> = Vec::new();
        let iter = self.counts.iter();
        let ghost pairs = iter.remaining();
        let ghost m = self@;
        proof {
            assert(vstd::std_specs::hash::obeys_key_model::<u32>());
            assert(vstd::std_specs::hash::builds_valid_hashers::<std::hash::RandomState>());
            assert(pairs == vstd::std_specs::hash::spec_hash_map_iter(&self.counts).remaining());
        }
        for kv in it: iter
            invariant
                it.seq() == pairs,
                e.len() == it.index(),
                forall|j: int| 0 <= j < e.len() ==> #[trigger] e@[j] == (*pairs[j].0, *pairs[j].1),
        {
            let (k, v) = kv;
            e.push((*k, *v));
        }
        proof {
            assert(e.len() == pairs.len());
            assert(pairs.len() == m.len());
            assert forall|a: int, b: int| 0 <= a < e.len() && 0 <= b < e.len() && a != b
                implies e@[a].0 != e@[b].0 by {
                if e@[a].0 == e@[b].0 {
                    assert(m.contains_key(*pairs[a].0) && m[*pairs[a].0] == *pairs[a].1);
                    assert(m.contains_key(*pairs[b].0) && m[*pairs[b].0] == *pairs[b].1);
                    assert(pairs[a] == pairs[b]);
                    assert(pairs.no_duplicates());
                }
            }
            assert forall|c: u32| #[trigger] m.contains_key(c) implies exists|j: int|
                0 <= j < e.len() && (#[trigger] e@[j]).0 == c by {
                assert(pairs.contains((&c, &m[c])));
                let j = choose|j: int| 0 <= j < pairs.len() && pairs[j] == (&c, &m[c]);
                assert(e@[j].0 == c);
            }
        }
        e
    }

    /// The palette of the colours counted so far: every colour when there
    /// are at most `PALETTE_SIZE` of them (in no particular order), otherwise
    /// the `PALETTE_SIZE` most frequent ones from most to least frequent.
    pub fn palette(&self) -> (r: Vec<u32>)
        ensures
            is_palette_of(self@, r@),
    {
        let ghost m = self@;
        let mut e = self.entries();
        let n = e.len();
        if n <= PALETTE_SIZE {
            let mut r: Vec<u32> = Vec::new();
            let mut i: usize = 0;
            while i < n
                invariant
                    n == e.len(),
                    entries_of(m, e@),
                    i <= n,
                    r.len() == i,
                    forall|j: int| 0 <= j < i ==> #[trigger] r@[j] == e@[j].0,
                decreases n - i,
            {
                r.push(e[i].0);
                i += 1;
            }
            proof {
                assert forall|a: int, b: int| 0 <= a < r.len() && 0 <= b < r.len() && a != b
                    implies r@[a] != r@[b] by {
                    assert(e@[a].0 != e@[b].0);
                }
                assert forall|i: int| 0 <= i < r.len() implies m.contains_key(#[trigger] r@[i]) by {
                    assert(m.contains_key(e@[i].0));
                }
                assert forall|c: u32| #[trigger] m.contains_key(c) implies r@.contains(c) by {
                    let j = choose|j: int| 0 <= j < e.len() && (#[trigger] e@[j]).0 == c;
                    assert(r@[j] == c);
                }
            }
            return r;
        }
        let mut i: usize = 0;
        while i < PALETTE_SIZE
            invariant
                n == e.len(),
                PALETTE_SIZE < n,
                entries_of(m, e@),
                i <= PALETTE_SIZE,
                forall|a: int, b: int| 0 <= a < b < i ==> #[trigger] e@[a].1 >= #[trigger] e@[b].1,
                forall|a: int, b: int| 0 <= a < i <= b < n ==> #[trigger] e@[a].1 >= #[trigger] e@[b].1,
            decreases PALETTE_SIZE - i,
        {
            let mut best = i;
            let mut j = i + 1;
            while j < n
                invariant
                    n == e.len(),
                    i < n,
                    i <= best < j <= n,
                    forall|t: int| i <= t < j ==> e@[best as int].1 >= #[trigger] e@[t].1,
                decreases n - j,
            {
                if e[j].1 > e[best].1 {
                    best = j;
                }
                j += 1;
            }
            let ghost before = e@;
            let top = e[best];
            let displaced = e[i];
            e.set(i, top);
            e.set(best, displaced);
            proof {
                lemma_swap_entries(m, before, i as int, best as int);
                assert(e@ == before.update(i as int, before[best as int]).update(best as int, before[i as int]));
                assert forall|k: int| 0 <= k < n implies #[trigger] e@[k] == before[if k == i { best as int } else if k == best { i as int } else { k }] by {}
            }
            i += 1;
        }
        let mut r: Vec<u32> = Vec::new();
        let mut k: usize = 0;
        while k < PALETTE_SIZE
            invariant
                n == e.len(),
                PALETTE_SIZE < n,
                k <= PALETTE_SIZE,
                r.len() == k,
                forall|j: int| 0 <= j < k ==> #[trigger] r@[j] == e@[j].0,
            decreases PALETTE_SIZE - k,
        {
            r.push(e[k].0);
            k += 1;
        }
        proof {
            assert forall|a: int, b: int| 0 <= a < r.len() && 0 <= b < r.len() && a != b
                implies r@[a] != r@[b] by {
                assert(e@[a].0 != e@[b].0);
            }
            assert forall|i: int| 0 <= i < r.len() implies m.contains_key(#[trigger] r@[i]) by {
                assert(m.contains_key(e@[i].0));
            }
            assert forall|a: int, b: int| 0 <= a < b < r.len() implies m[#[trigger] r@[a]] >= m[#[trigger] r@[b]] by {
                assert(m[e@[a].0] == e@[a].1);
                assert(m[e@[b].0] == e@[b].1);
            }
            assert forall|c: u32, i: int|
                m.contains_key(c) && !r@.contains(c) && 0 <= i < r.len() implies m[c] <= m[r@[i]] by {
                let j = choose|j: int| 0 <= j < e.len() && (#[trigger] e@[j]).0 == c;
                if j < PALETTE_SIZE {
                    assert(r@[j] == c);
                }
                assert(m[e@[i].0] == e@[i].1);
                assert(e@[i].1 >= e@[j].1);
            }
        }
        r
    }

    /// Counts every frame of a stack, from the top down. Fails, with the
    /// colour concerned, when a count would pass `u32::MAX`.
    pub fn add_stack(&mut self, stack: Option<Box<Stack<Arc<Vec<u8>>>>>) -> (r: Result<(), CountOverflow>)
        requires
            old(self).wf(),
        ensures
            final(self).wf(),
            r is Ok <==> forall|c: u32|
                old(self).frequency(c) + frames_color_count(stack_items(stack), c) <= u32::MAX,
            r is Ok ==> forall|c: u32| #[trigger] final(self).frequency(c) == old(self).frequency(c)
                + frames_color_count(stack_items(stack), c),
            r matches Err(e) ==> old(self).frequency(e.color)
                + frames_color_count(stack_items(stack), e.color) > u32::MAX,
    {
        let mut cur = stack;
        while cur.is_some()
            invariant
                self.wf(),
                forall|c: u32| #[trigger] self.frequency(c) + frames_color_count(stack_items(cur), c)
                    == old(self).frequency(c) + frames_color_count(stack_items(stack), c),
            decreases stack_items(cur).len(),
        {
            let node = *cur.unwrap();
            let Stack { item, next } = node;
            assert((seq![item] + stack_items(next)).drop_first() =~= stack_items(next));
            assert((seq![item] + stack_items(next))[0] == item);
            let ghost prev = *self;
            match self.add_frame(&*item) {
                Ok(()) => {},
                Err(e) => {
                    assert(prev.frequency(e.color) + frames_color_count(stack_items(Some(Box::new(Stack { item, next }))), e.color)
                        == old(self).frequency(e.color) + frames_color_count(stack_items(stack), e.color));
                    return Err(e);
                },
            }
            cur = next;
        }
        proof {
            assert forall|c: u32| old(self).frequency(c) + frames_color_count(stack_items(stack), c) <= u32::MAX by {
                assert(self.frequency(c) + frames_color_count(stack_items(cur), c)
                    == old(self).frequency(c) + frames_color_count(stack_items(stack), c));
            }
        }
        Ok(())
    }
}

/// The byte contents of a sequence of frames.
pub open spec fn frame_views(frames: Seq<Arc<Vec<u8>>>) -> Seq<Seq<u8>> {
    frames.map_values(|f: Arc<Vec<u8>>| f@)
}

/// How often colour `c` occurs over a sequence of frame contents.
pub open spec fn views_color_count(views: Seq<Seq<u8>>, c: u32) -> nat
    decreases views.len(),
{
    if views.len() == 0 {
        0
    } else {
        frame_color_count(views[0], c) + views_color_count(views.drop_first(), c)
    }
}

proof fn lemma_frames_count_is_views_count(frames: Seq<Arc<Vec<u8>>>, c: u32)
    ensures
        frames_color_count(frames, c) == views_color_count(frame_views(frames), c),
    decreases frames.len(),
{
    if frames.len() > 0 {
        lemma_frames_count_is_views_count(frames.drop_first(), c);
        assert(frame_views(frames).drop_first() =~= frame_views(frames.drop_first()));
    }
}

proof fn lemma_views_count_concat(a: Seq<Seq<u8>>, b: Seq<Seq<u8>>, c: u32)
    ensures
        views_color_count(a + b, c) == views_color_count(a, c) + views_color_count(b, c),
    decreases a.len(),
{
    if a.len() == 0 {
        assert(a + b =~= b);
    } else {
        lemma_views_count_concat(a.drop_first(), b, c);
        assert((a + b).drop_first() =~= a.drop_first() + b);
        assert((a + b)[0] == a[0]);
    }
}

proof fn lemma_views_count_single(x: Seq<u8>, c: u32)
    ensures
        views_color_count(seq![x], c) == frame_color_count(x, c),
{
    assert(seq![x].drop_first() =~= Seq::<Seq<u8>>::empty());
    assert(views_color_count(seq![x].drop_first(), c) == 0);
    assert(seq![x][0] == x);
}

proof fn lemma_views_count_permutation(a: Seq<Seq<u8>>, b: Seq<Seq<u8>>, c: u32)
    requires
        a.to_multiset() == b.to_multiset(),
    ensures
        views_color_count(a, c) == views_color_count(b, c),
    decreases a.len(),
{
    broadcast use vstd::seq_lib::group_to_multiset_ensures;
    broadcast use vstd::multiset::group_multiset_axioms;

    if a.len() == 0 {
        assert(b.to_multiset().len() == 0);
        assert(b =~= Seq::<Seq<u8>>::empty());
    } else {
        let x = a.last();
        let rest = a.drop_last();
        assert(a =~= rest.push(x));
        assert(a.to_multiset().count(x) > 0);
        assert(b.contains(x));
        let k = choose|k: int| 0 <= k < b.len() && b[k] == x;
        let b_rest = b.remove(k);
        assert(b_rest.to_multiset() == b.to_multiset().remove(x));
        assert(rest.to_multiset() =~= a.to_multiset().remove(x));
        lemma_views_count_permutation(rest, b_rest, c);
        lemma_views_count_concat(rest, seq![x], c);
        lemma_views_count_single(x, c);
        assert(rest + seq![x] =~= a);
        let pre = b.take(k);
        let post = b.skip(k + 1);
        assert(b =~= pre + seq![x] + post);
        assert(b_rest =~= pre + post);
        lemma_views_count_concat(pre + seq![x], post, c);
        lemma_views_count_concat(pre, seq![x], c);
        lemma_views_count_concat(pre, post, c);
    }
}

/// Colour counts are additive over frames: counting two runs of frames one
/// after the other, as the palette worker does poll after poll, gives the
/// counts of their concatenation; and they depend only on which frame
/// contents were seen, not on their order, so however the same frames are
/// split over polls and ordered on the stack, the counts come out the same.
pub proof fn lemma_counts_ignore_order_and_split(
    a: Seq<Arc<Vec<u8>>>,
    b: Seq<Arc<Vec<u8>>>,
    c: u32,
)
    ensures
        frames_color_count(a + b, c) == frames_color_count(a, c) + frames_color_count(b, c),
        frame_views(a).to_multiset() == frame_views(b).to_multiset() ==> frames_color_count(a, c)
            == frames_color_count(b, c),
{
    lemma_frames_count_is_views_count(a + b, c);
    lemma_frames_count_is_views_count(a, c);
    lemma_frames_count_is_views_count(b, c);
    assert(frame_views(a + b) =~= frame_views(a) + frame_views(b));
    lemma_views_count_concat(frame_views(a), frame_views(b), c);
    if frame_views(a).to_multiset() == frame_views(b).to_multiset() {
        lemma_views_count_permutation(frame_views(a), frame_views(b), c);
    }
}

/// No frames count nothing, and one frame counts what that frame holds;
/// with the additivity above this fixes the counts of every frame sequence.
pub proof fn lemma_frames_count_base(f: Arc<Vec<u8>>, c: u32)
    ensures
        frames_color_count(Seq::<Arc<Vec<u8>>>::empty(), c) == 0,
        frames_color_count(seq![f], c) == frame_color_count(f@, c),
{
    assert(seq![f].drop_first() =~= Seq::<Arc<Vec<u8>>>::empty());
    assert(frames_color_count(seq![f].drop_first(), c) == 0);
    assert(seq![f][0] == f);
}

/// A poll counts exactly the frames kept since the previous poll: the stack
/// those frames were pushed onto (emptied by that poll) holds them newest on
/// top, and its counts are those of the frames in the order they were kept.
pub proof fn lemma_poll_counts_frames_kept(kept: Seq<Arc<Vec<u8>>>, c: u32)
    ensures
        stack_items(push_all(None, kept)) == kept.reverse(),
        frames_color_count(stack_items(push_all(None, kept)), c) == frames_color_count(kept, c),
{
    lemma_push_all_items(None, kept);
    assert(kept.reverse() + stack_items::<Arc<Vec<u8>>>(None) =~= kept.reverse());
    assert(frame_views(kept.reverse()) =~= frame_views(kept).reverse());
    frame_views(kept).lemma_reverse_to_multiset();
    lemma_counts_ignore_order_and_split(kept.reverse(), kept, c);
}

/// The `PALETTE_SIZE`-th and the next highest counts of `m` differ: some
/// level `t` has exactly `PALETTE_SIZE` colours counted above it.
pub open spec fn top_counts_separated(m: Map<u32, u32>) -> bool {
    exists|t: int| (#[trigger] counted_above(m, t)).len() == PALETTE_SIZE
}

/// The colours of `m` counted more than `t` times.
pub open spec fn counted_above(m: Map<u32, u32>, t: int) -> Set<u32> {
    m.dom().filter(|c: u32| m[c] > t)
}

proof fn lemma_palette_is_top_set(m: Map<u32, u32>, p: Seq<u32>, t: int)
    requires
        m.dom().finite(),
        is_palette_of(m, p),
        m.len() > PALETTE_SIZE,
        counted_above(m, t).len() == PALETTE_SIZE,
    ensures
        p.to_set() == counted_above(m, t),
{
    broadcast use vstd::set::group_set_axioms;
    let top = counted_above(m, t);
    p.unique_seq_to_set();
    vstd::set_lib::lemma_set_subset_finite(m.dom(), top);
    assert forall|x: u32| top.contains(x) implies p.to_set().contains(x) by {
        if !p.contains(x) {
            assert forall|y: u32| p.to_set().contains(y) implies top.contains(y) by {
                let i = choose|i: int| 0 <= i < p.len() && p[i] == y;
                assert(m.contains_key(p[i]));
                assert(m[x] <= m[p[i]]);
            }
            let bigger = p.to_set().insert(x);
            assert(bigger.subset_of(top));
            vstd::set_lib::lemma_len_subset(bigger, top);
            assert(bigger.len() == p.to_set().len() + 1);
            assert(false);
        }
    }
    vstd::set_lib::lemma_subset_equality(top, p.to_set());
}

/// Two palettes chosen from the same counts hold the same colours, provided
/// the choice is not decided by a tie: at most `PALETTE_SIZE` colours were
/// seen, or the `PALETTE_SIZE`-th and next highest counts differ.
pub proof fn lemma_palettes_agree(m: Map<u32, u32>, p1: Seq<u32>, p2: Seq<u32>)
    requires
        m.dom().finite(),
        is_palette_of(m, p1),
        is_palette_of(m, p2),
        m.len() <= PALETTE_SIZE || top_counts_separated(m),
    ensures
        p1.to_set() == p2.to_set(),
{
    broadcast use vstd::set::group_set_axioms;
    if m.len() <= PALETTE_SIZE {
        assert(p1.to_set() =~= m.dom());
        assert(p2.to_set() =~= m.dom());
    } else {
        let t = choose|t: int| (#[trigger] counted_above(m, t)).len() == PALETTE_SIZE;
        lemma_palette_is_top_set(m, p1, t);
        lemma_palette_is_top_set(m, p2, t);
    }
}

/// Two palette workers that see the same frames (the same frame contents,
/// however split over polls and in whatever stack order) end with the same
/// counts, and their palettes hold the same colours unless a tie at the
/// `PALETTE_SIZE`-th count decides the choice. Each worker's frames are the
/// concatenation of the stacks it took, in the order counted.
pub proof fn lemma_same_frames_same_palette(
    f1: ColorFrequencies,
    f2: ColorFrequencies,
    frames1: Seq<Arc<Vec<u8>>>,
    frames2: Seq<Arc<Vec<u8>>>,
    p1: Seq<u32>,
    p2: Seq<u32>,
)
    requires
        f1.wf(),
        f2.wf(),
        forall|c: u32| #[trigger] f1.frequency(c) == frames_color_count(frames1, c),
        forall|c: u32| #[trigger] f2.frequency(c) == frames_color_count(frames2, c),
        frame_views(frames1).to_multiset() == frame_views(frames2).to_multiset(),
        is_palette_of(f1@, p1),
        is_palette_of(f2@, p2),
        f1@.len() <= PALETTE_SIZE || top_counts_separated(f1@),
    ensures
        f1@ == f2@,
        p1.to_set() == p2.to_set(),
{
    assert forall|c: u32| #[trigger] f1.frequency(c) == f2.frequency(c) by {
        lemma_counts_ignore_order_and_split(frames1, frames2, c);
    }
    assert forall|c: u32| #[trigger] f1@.contains_key(c) <==> f2@.contains_key(c) by {
        assert(f1.frequency(c) == f2.frequency(c));
    }
    assert forall|c: u32| f1@.contains_key(c) implies #[trigger] f1@[c] == f2@[c] by {
        assert(f1.frequency(c) == f2.frequency(c));
    }
    assert(f1@ =~= f2@);
    assert(f1@.dom().finite());
    lemma_palettes_agree(f1@, p1, p2);
}

/// A frame of `w * h * 4` bytes, as every recorded frame is, is made of whole
/// pixels: counting takes each of its `w * h` pixels into account.
pub proof fn lemma_recorded_frame_counted(img: Seq<u8>, w: u32, h: u32, c: u32)
    requires
        img.len() == w * h * 4,
    ensures
        frame_color_count(img, c) == pixel_count(img, (w * h) as nat, c),
{
    assert(0 <= w * h) by (nonlinear_arith);
    assert(img.len() % 4 == 0);
    assert(img.len() / 4 == w * h);
}

/// Counts gathered from a frame sequence (starting from none) name exactly
/// the colours that occur in those frames, and every colour of a palette
/// chosen from them is the colour of some pixel of some whole-pixel frame.
pub proof fn lemma_palette_colors_come_from_frames(
    freqs: ColorFrequencies,
    frames: Seq<Arc<Vec<u8>>>,
    palette: Seq<u32>,
)
    requires
        freqs.wf(),
        forall|c: u32| #[trigger] freqs.frequency(c) == frames_color_count(frames, c),
        is_palette_of(freqs@, palette),
    ensures
        forall|c: u32| #[trigger] freqs@.contains_key(c) <==> occurs_in_frames(frames, c),
        forall|i: int| 0 <= i < palette.len() ==> occurs_in_frames(frames, #[trigger] palette[i]),
{
    assert forall|c: u32| #[trigger] freqs@.contains_key(c) <==> occurs_in_frames(frames, c) by {
        if freqs@.contains_key(c) {
            assert(freqs.frequency(c) > 0);
            lemma_frames_count_witness(frames, c);
        }
        if occurs_in_frames(frames, c) {
            let (f, p) = choose|f: int, p: int|
                0 <= f < frames.len() && (#[trigger] frames[f])@.len() % 4 == 0 && 0 <= p < frames[f]@.len() / 4
                    && #[trigger] pixel_color(frames[f]@, p) == c;
            lemma_occurs_counted(frames, c, f, p);
            assert(freqs.frequency(c) > 0);
        }
    }
    assert forall|i: int| 0 <= i < palette.len() implies occurs_in_frames(frames, #[trigger] palette[i]) by {
        assert(freqs@.contains_key(palette[i]));
    }
}

} // verus!
