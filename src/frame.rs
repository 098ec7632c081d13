//! The published frame record, its brightness histogram, and the decisions of
//! the capture loop.
use vstd::prelude::*;
use crate::cam::{Cam, CamView, drop_threshold, is_drop};
use crate::demosaic::{decodes_to, demosaic};

verus! {

/// Solid color substituted for a frame that cannot be decoded.
pub const ERROR_COLOR: [u8; 3] = [0, 0, 255];

/// Histogram bucket of a pixel: `(R + 2G + B) / 4`, truncated.
pub open spec fn luma_bucket(p: [u8; 3]) -> int {
    (p@[0] + 2 * p@[1] + p@[2]) / 4
}

/// Number of pixels of `buf` that fall in bucket `k`.
pub open spec fn bucket_count(buf: Seq<[u8; 3]>, k: int) -> nat
    decreases buf.len(),
{
    if buf.len() == 0 {
        0
    } else {
        bucket_count(buf.drop_last(), k) + if luma_bucket(buf.last()) == k {
            1nat
        } else {
            0nat
        }
    }
}

/// Sum of the bucket counts of buckets `0..n`.
pub open spec fn counts_below(buf: Seq<[u8; 3]>, n: int) -> int
    decreases n,
{
    if n <= 0 {
        0
    } else {
        counts_below(buf, n - 1) + bucket_count(buf, n - 1)
    }
}

/// Sum of the first `n` entries of a histogram.
pub open spec fn sum_first(hist: Seq<u32>, n: int) -> int
    decreases n,
{
    if n <= 0 {
        0
    } else {
        sum_first(hist, n - 1) + hist[n - 1]
    }
}

proof fn lemma_bucket_count_bound(buf: Seq<[u8; 3]>, k: int)
    ensures
        bucket_count(buf, k) <= buf.len(),
    decreases buf.len(),
{
    if buf.len() > 0 {
        lemma_bucket_count_bound(buf.drop_last(), k);
    }
}

proof fn lemma_counts_below_empty(buf: Seq<[u8; 3]>, n: int)
    requires
        buf.len() == 0,
    ensures
        counts_below(buf, n) == 0,
    decreases n,
{
    if n > 0 {
        lemma_counts_below_empty(buf, n - 1);
    }
}

proof fn lemma_counts_below_last(buf: Seq<[u8; 3]>, n: int)
    requires
        buf.len() > 0,
    ensures
        counts_below(buf, n) == counts_below(buf.drop_last(), n) + if 0 <= luma_bucket(
            buf.last(),
        ) < n {
            1int
        } else {
            0int
        },
    decreases n,
{
    if n > 0 {
        lemma_counts_below_last(buf, n - 1);
    }
}

/// Every pixel falls in exactly one of the 256 buckets, so the bucket counts
/// add up to the number of pixels.
pub proof fn lemma_histogram_total(buf: Seq<[u8; 3]>)
    ensures
        counts_below(buf, 256) == buf.len(),
    decreases buf.len(),
{
    if buf.len() == 0 {
        lemma_counts_below_empty(buf, 256);
    } else {
        lemma_histogram_total(buf.drop_last());
        lemma_counts_below_last(buf, 256);
    }
}

proof fn lemma_sum_first_counts(hist: Seq<u32>, buf: Seq<[u8; 3]>, n: int)
    requires
        0 <= n <= hist.len(),
        forall|k: int| 0 <= k < n ==> hist[k] == bucket_count(buf, k),
    ensures
        sum_first(hist, n) == counts_below(buf, n),
    decreases n,
{
    if n > 0 {
        lemma_sum_first_counts(hist, buf, n - 1);
    }
}

/// Counts the pixels of `buf` in each brightness bucket.
pub fn calc_hist(buf: &[[u8; 3]]) -> (r: [u32; 256])
    requires
        buf@.len() <= u32::MAX,
    ensures
        forall|k: int| 0 <= k < 256 ==> #[trigger] r@[k] == bucket_count(buf@, k),
        sum_first(r@, 256) == buf@.len(),
{
    let mut hist = [0u32; 256];
    let n = buf.len();
    let mut i: usize = 0;
    while i < n
        invariant
            n == buf@.len(),
            n <= u32::MAX,
            i <= n,
            forall|k: int| 0 <= k < 256 ==> #[trigger] hist@[k] == bucket_count(buf@.take(i as int), k),
        decreases n - i,
    {
        let p = buf[i];
        let b = ((p[0] as usize) + 2 * (p[1] as usize) + (p[2] as usize)) / 4;
        proof {
            lemma_bucket_count_bound(buf@.take(i as int), b as int);
            assert(buf@.take(i + 1).drop_last() =~= buf@.take(i as int));
        }
        hist[b] = hist[b] + 1;
        i = i + 1;
    }
    proof {
        assert(buf@.take(n as int) =~= buf@);
        lemma_sum_first_counts(hist@, buf@, 256);
        lemma_histogram_total(buf@);
    }
    hist
}

/// Converts an RGB pixel to RGBA with a fully opaque alpha channel.
pub fn rgb2rgba(pix: &[u8; 3]) -> (r: [u8; 4])
    ensures
        r@ == seq![pix@[0], pix@[1], pix@[2], 255u8],
{
    let r = [pix[0], pix[1], pix[2], 255u8];
    assert(r@ =~= seq![pix@[0], pix@[1], pix@[2], 255u8]);
    r
}

/// The latest decoded frame: its pixels, its capture timestamp in
/// microseconds, and the brightness histogram of its pixels.
pub struct FrameBuf {
    pub buf: Vec<[u8; 3]>,
    pub ts: u64,
    pub hist: [u32; 256],
}

/// Paints every pixel of `buf` with `ERROR_COLOR`.
fn fill_error(buf: &mut Vec<[u8; 3]>)
    ensures
        final(buf)@.len() == old(buf)@.len(),
        forall|i: int| 0 <= i < final(buf)@.len() ==> #[trigger] final(buf)@[i] == ERROR_COLOR,
{
    let n = buf.len();
    let mut i: usize = 0;
    while i < n
        invariant
            n == buf@.len(),
            i <= n,
            forall|j: int| 0 <= j < i ==> #[trigger] buf@[j] == ERROR_COLOR,
        decreases n - i,
    {
        buf.set(i, ERROR_COLOR);
        i = i + 1;
    }
}

impl FrameBuf {
    /// The record before any frame is published: every pixel the error
    /// color, timestamp zero and an empty histogram.
    pub fn new(pixels: usize) -> (r: FrameBuf)
        ensures
            r.buf@.len() == pixels,
            forall|i: int| 0 <= i < pixels ==> #[trigger] r.buf@[i] == ERROR_COLOR,
            r.ts == 0,
            forall|k: int| 0 <= k < 256 ==> #[trigger] r.hist@[k] == 0,
    {
        let mut buf: Vec<[u8; 3]> = Vec::new();
        let mut i: usize = 0;
        while i < pixels
            invariant
                i <= pixels,
                buf@.len() == i,
                forall|j: int| 0 <= j < i ==> #[trigger] buf@[j] == ERROR_COLOR,
            decreases pixels - i,
        {
            buf.push(ERROR_COLOR);
            i = i + 1;
        }
        FrameBuf { buf, ts: 0, hist: [0u32; 256] }
    }
}

/// `f` is what processing the raw frame `raw`, captured at `ts`, yields under
/// configuration `cam`: the decoded pixels when `raw` has the configured size,
/// else the error color everywhere; and in both cases the histogram of those
/// pixels, whose buckets add up to the pixel count.
pub open spec fn processed(cam: CamView, raw: Seq<u8>, ts: u64, f: FrameBuf) -> bool {
    &&& f.ts == ts
    &&& f.buf@.len() == cam.pixels
    &&& raw.len() == cam.frame_size ==> decodes_to(
        f.buf@,
        cam.format,
        cam.resolution,
        raw,
        cam.pixels as int,
    )
    &&& raw.len() != cam.frame_size ==> forall|i: int|
        0 <= i < cam.pixels ==> #[trigger] f.buf@[i] == ERROR_COLOR
    &&& forall|k: int| 0 <= k < 256 ==> #[trigger] f.hist@[k] == bucket_count(f.buf@, k)
    &&& sum_first(f.hist@, 256) == cam.pixels
}

/// Decodes `raw`, captured at `ts`, into `out`, or paints `out` with the
/// error color when `raw` does not have the configured size; then recomputes
/// the histogram. Returns whether the frame was decoded.
pub fn process_frame(cam: &Cam, raw: &[u8], ts: u64, out: &mut FrameBuf) -> (decoded: bool)
    requires
        old(out).buf@.len() == cam@.pixels,
    ensures
        decoded == (raw@.len() == cam@.frame_size),
        processed(cam@, raw@, ts, *final(out)),
{
    proof {
        use_type_invariant(cam);
    }
    let decoded = raw.len() == cam.get_frame_size();
    if decoded {
        demosaic(cam, &mut out.buf, raw);
    } else {
        fill_error(&mut out.buf);
    }
    out.ts = ts;
    out.hist = calc_hist(out.buf.as_slice());
    decoded
}

/// What one turn of the capture loop did with the frame it acquired.
#[derive(Clone, Copy, Debug, PartialEq, Eq, Structural)]
pub enum Step {
    /// Capture is paused: the frame was discarded.
    Skipped,
    /// A frame is ready to publish. `dropped` tells whether more than 1.1
    /// frame intervals passed since the previous processed frame; `decoded`
    /// whether the frame had the configured size.
    Ready { dropped: bool, decoded: bool },
}

/// The capture loop's state: the configuration, the timestamp of the last
/// processed frame, and the frame being prepared for publication.
pub struct Worker {
    cam: Cam,
    prev: u64,
    frame: FrameBuf,
}

impl Worker {
    pub closed spec fn config(&self) -> CamView {
        self.cam@
    }

    /// Timestamp of the last processed frame (zero before the first).
    pub closed spec fn prev_ts(&self) -> u64 {
        self.prev
    }

    /// The frame that `publish` hands out next.
    pub closed spec fn pending(&self) -> FrameBuf {
        self.frame
    }

    pub closed spec fn wf(&self) -> bool {
        self.frame.buf@.len() == self.cam@.pixels
    }

    pub fn new(cam: Cam) -> (r: Worker)
        ensures
            r.wf(),
            r.config() == cam@,
            r.prev_ts() == 0,
            r.pending().ts == 0,
            forall|i: int| 0 <= i < cam@.pixels ==> #[trigger] r.pending().buf@[i] == ERROR_COLOR,
    {
        let pixels = cam.get_pixels();
        Worker { cam, prev: 0, frame: FrameBuf::new(pixels) }
    }

    /// Handles a frame `raw` captured at `ts`. While paused the frame is
    /// dropped unseen; otherwise it is checked for a frame drop, processed
    /// into the pending record, and its timestamp remembered.
    pub fn step(&mut self, paused: bool, raw: &[u8], ts: u64) -> (r: Step)
        requires
            old(self).wf(),
        ensures
            final(self).wf(),
            final(self).config() == old(self).config(),
            paused ==> r == Step::Skipped && final(self).prev_ts() == old(self).prev_ts()
                && final(self).pending() == old(self).pending(),
            !paused ==> r == (Step::Ready {
                dropped: ts - old(self).prev_ts() > drop_threshold(old(self).config().interval),
                decoded: raw@.len() == old(self).config().frame_size,
            }),
            !paused ==> final(self).prev_ts() == ts,
            !paused ==> processed(final(self).config(), raw@, ts, final(self).pending()),
    {
        if paused {
            return Step::Skipped;
        }
        proof {
            use_type_invariant(&self.cam);
        }
        let dropped = is_drop(ts, self.prev, self.cam.get_interval());
        let decoded = process_frame(&self.cam, raw, ts, &mut self.frame);
        self.prev = ts;
        Step::Ready { dropped, decoded }
    }

    /// Hands the pending frame to `store` whole, taking the store's previous
    /// record back as the buffer to decode the next frame into.
    pub fn publish(&mut self, store: &mut FrameBuf)
        requires
            old(self).wf(),
        ensures
            final(self).wf(),
            *final(store) == old(self).pending(),
            final(self).config() == old(self).config(),
            final(self).prev_ts() == old(self).prev_ts(),
    {
        if store.buf.len() == self.cam.get_pixels() {
            std::mem::swap(&mut self.frame, store);
        } else {
            let mut fresh = FrameBuf::new(self.cam.get_pixels());
            std::mem::swap(&mut self.frame, &mut fresh);
            *store = fresh;
        }
    }
}

} // verus!
