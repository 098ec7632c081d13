//! Device configuration and the decisions taken while negotiating it: which
//! format, resolution and frame interval to ask the device for.
use vstd::prelude::*;
use crate::format::PixelFormat;

verus! {

/// Highest frame rate asked of a device that lists discrete intervals.
pub const MAX_FPS: u32 = 60;

/// Why a device cannot be configured.
#[derive(Clone, Copy, Debug, PartialEq, Eq, Structural)]
pub enum DeviceError {
    /// The device offers none of the understood pixel formats.
    Unsupported,
    /// The device lists no resolution.
    NoResolution,
    /// The device lists no frame interval of at most `MAX_FPS` frames per second.
    NoInterval,
    /// The resolution does not suit the format, or its frames are too large.
    BadResolution,
    /// The frame interval has a zero denominator.
    BadInterval,
}

/// Resolutions a device offers for a format.
pub enum ResolutionInfo {
    Discretes(Vec<(u32, u32)>),
    Stepwise { min: (u32, u32), max: (u32, u32), step: (u32, u32) },
}

/// Frame intervals, in seconds as numerator / denominator, that a device
/// offers for a format and resolution.
pub enum IntervalInfo {
    Discretes(Vec<(u32, u32)>),
    Stepwise { min: (u32, u32), max: (u32, u32), step: (u32, u32) },
}

/// The device lists `f` among the first `n` codes of `formats`.
pub open spec fn offered(formats: Seq<[u8; 4]>, n: int, f: PixelFormat) -> bool {
    exists|i: int| 0 <= i < n && 0 <= i < formats.len() && #[trigger] formats[i]@ == f.spec_tag()
}

/// Picks, among the formats a device offers, the understood one of highest
/// priority.
pub fn select_format(formats: &Vec<[u8; 4]>) -> (r: Result<PixelFormat, DeviceError>)
    ensures
        match r {
            Ok(f) => offered(formats@, formats@.len() as int, f) && forall|g: PixelFormat|
                offered(formats@, formats@.len() as int, g) ==> g.spec_priority()
                    <= f.spec_priority(),
            Err(e) => e == DeviceError::Unsupported && forall|g: PixelFormat|
                !offered(formats@, formats@.len() as int, g),
        },
{
    let mut best: Option<PixelFormat> = None;
    let mut i: usize = 0;
    while i < formats.len()
        invariant
            i <= formats@.len(),
            match best {
                Some(f) => offered(formats@, i as int, f) && forall|g: PixelFormat|
                    offered(formats@, i as int, g) ==> g.spec_priority() <= f.spec_priority(),
                None => forall|g: PixelFormat| !offered(formats@, i as int, g),
            },
        decreases formats@.len() - i,
    {
        let cur = PixelFormat::from_tag(&formats[i]);
        let ghost old_best = best;
        match cur {
            Some(f) => {
                let better = match best {
                    Some(b) => b.priority() < f.priority(),
                    None => true,
                };
                if better {
                    best = Some(f);
                }
            },
            None => {},
        }
        proof {
            assert forall|g: PixelFormat| #[trigger] offered(formats@, i + 1, g) implies offered(
                formats@,
                i as int,
                g,
            ) || (cur == Some(g)) by {
                let j = choose|j: int|
                    0 <= j < i + 1 && 0 <= j < formats@.len() && #[trigger] formats@[j]@
                        == g.spec_tag();
                if j == i {
                    match cur {
                        Some(f) => {
                            assert(f.spec_tag() == g.spec_tag());
                        },
                        None => {},
                    }
                }
            }
            match best {
                Some(b) => {
                    if cur == Some(b) {
                        assert(formats@[i as int]@ == b.spec_tag());
                    }
                },
                None => {},
            }
        }
        i = i + 1;
    }
    match best {
        Some(f) => Ok(f),
        None => Err(DeviceError::Unsupported),
    }
}

/// `a` comes no later than `b` when comparing first by the first component.
pub open spec fn lex_le(a: (u32, u32), b: (u32, u32)) -> bool {
    a.0 < b.0 || (a.0 == b.0 && a.1 <= b.1)
}

/// The largest of a non-empty list, comparing first by the first component.
fn max_pair(v: &Vec<(u32, u32)>) -> (r: (u32, u32))
    requires
        v@.len() > 0,
    ensures
        v@.contains(r),
        forall|i: int| 0 <= i < v@.len() ==> lex_le(#[trigger] v@[i], r),
{
    let mut best = v[0];
    let mut i: usize = 1;
    while i < v.len()
        invariant
            1 <= i <= v@.len(),
            v@.contains(best),
            forall|j: int| 0 <= j < i ==> lex_le(#[trigger] v@[j], best),
        decreases v@.len() - i,
    {
        let cur = v[i];
        if best.0 < cur.0 || (best.0 == cur.0 && best.1 < cur.1) {
            best = cur;
        }
        i = i + 1;
    }
    best
}

/// Picks the largest resolution a device lists, or the top of its range.
pub fn select_resolution(info: &ResolutionInfo) -> (r: Result<(u32, u32), DeviceError>)
    ensures
        match info {
            ResolutionInfo::Discretes(v) => match r {
                Ok(res) => v@.contains(res) && forall|i: int|
                    0 <= i < v@.len() ==> lex_le(#[trigger] v@[i], res),
                Err(e) => e == DeviceError::NoResolution && v@.len() == 0,
            },
            ResolutionInfo::Stepwise { max, .. } => r == Ok::<(u32, u32), DeviceError>(*max),
        },
{
    match info {
        ResolutionInfo::Discretes(v) => {
            if v.len() == 0 {
                Err(DeviceError::NoResolution)
            } else {
                Ok(max_pair(v))
            }
        },
        ResolutionInfo::Stepwise { max, .. } => Ok(*max),
    }
}

/// A listed interval of exactly one frame per `1 / d` seconds, at most
/// `MAX_FPS` frames per second.
pub open spec fn usable_interval(iv: (u32, u32)) -> bool {
    iv.0 == 1 && iv.1 <= MAX_FPS
}

/// Picks the highest frame rate among the usable listed intervals, or the
/// highest rate of a range.
pub fn select_interval(info: &IntervalInfo) -> (r: Result<(u32, u32), DeviceError>)
    ensures
        match info {
            IntervalInfo::Discretes(v) => match r {
                Ok(iv) => v@.contains(iv) && usable_interval(iv) && forall|i: int|
                    0 <= i < v@.len() && usable_interval(#[trigger] v@[i]) ==> v@[i].1 <= iv.1,
                Err(e) => e == DeviceError::NoInterval && forall|i: int|
                    0 <= i < v@.len() ==> !usable_interval(#[trigger] v@[i]),
            },
            IntervalInfo::Stepwise { min, .. } => r == Ok::<(u32, u32), DeviceError>(*min),
        },
{
    match info {
        IntervalInfo::Discretes(v) => {
            let mut best: Option<(u32, u32)> = None;
            let mut i: usize = 0;
            while i < v.len()
                invariant
                    i <= v@.len(),
                    match best {
                        Some(b) => v@.contains(b) && usable_interval(b) && forall|j: int|
                            0 <= j < i && usable_interval(#[trigger] v@[j]) ==> v@[j].1 <= b.1,
                        None => forall|j: int| 0 <= j < i ==> !usable_interval(#[trigger] v@[j]),
                    },
                decreases v@.len() - i,
            {
                let cur = v[i];
                if cur.0 == 1 && cur.1 <= MAX_FPS {
                    match best {
                        Some(b) => {
                            if b.1 < cur.1 {
                                best = Some(cur);
                            }
                        },
                        None => {
                            best = Some(cur);
                        },
                    }
                }
                i = i + 1;
            }
            match best {
                Some(b) => Ok(b),
                None => Err(DeviceError::NoInterval),
            }
        },
        IntervalInfo::Stepwise { min, .. } => Ok(*min),
    }
}

/// A resolution that frames of `format` can be decoded at: frames fit in
/// 32-bit sizes, Bayer planes tile into 2x2 blocks with a full block on every
/// side, and packed luma/chroma pixels come in pairs.
pub open spec fn resolution_ok(format: PixelFormat, resolution: (u32, u32)) -> bool {
    let pixels = resolution.0 * resolution.1;
    &&& format.spec_bytes_per_pixel() * pixels <= u32::MAX
    &&& format == PixelFormat::Rggb ==> resolution.0 % 2 == 0 && resolution.1 % 2 == 0
        && resolution.0 >= 4 && resolution.1 >= 4
    &&& format == PixelFormat::Yuyv ==> pixels % 2 == 0
}

/// What a configuration holds.
pub struct CamView {
    pub format: PixelFormat,
    pub resolution: (u32, u32),
    pub interval: (u32, u32),
    pub frame_size: usize,
    pub pixels: usize,
}

impl CamView {
    /// Sizes follow from format and resolution, and the interval is a proper
    /// fraction.
    pub open spec fn wf(self) -> bool {
        &&& resolution_ok(self.format, self.resolution)
        &&& self.interval.1 != 0
        &&& self.pixels == self.resolution.0 * self.resolution.1
        &&& self.frame_size == self.format.spec_bytes_per_pixel() * self.pixels
    }
}

/// The negotiated, immutable configuration of a capture device.
pub struct Cam {
    resolution: (u32, u32),
    interval: (u32, u32),
    format: PixelFormat,
    frame_size: usize,
    pixels: usize,
}

impl View for Cam {
    type V = CamView;

    closed spec fn view(&self) -> CamView {
        CamView {
            format: self.format,
            resolution: self.resolution,
            interval: self.interval,
            frame_size: self.frame_size,
            pixels: self.pixels,
        }
    }
}

impl Cam {
    #[verifier::type_invariant]
    pub(crate) open spec fn inv(&self) -> bool {
        self@.wf()
    }

    /// Fixes the configuration from what negotiation chose, computing the raw
    /// frame size and pixel count.
    pub fn new(format: PixelFormat, resolution: (u32, u32), interval: (u32, u32)) -> (r: Result<
        Cam,
        DeviceError,
    >)
        ensures
            match r {
                Ok(c) => c@.format == format && c@.resolution == resolution && c@.interval
                    == interval && c@.wf(),
                Err(e) => if !resolution_ok(format, resolution) {
                    e == DeviceError::BadResolution
                } else {
                    e == DeviceError::BadInterval && interval.1 == 0
                },
            },
    {
        proof {
            let (a, b) = (resolution.0 as int, resolution.1 as int);
            assert(a * b <= u64::MAX) by (nonlinear_arith)
                requires
                    0 <= a <= u32::MAX,
                    0 <= b <= u32::MAX,
            ;
        }
        let pixels: u64 = resolution.0 as u64 * resolution.1 as u64;
        let bpp = format.bytes_per_pixel();
        if pixels > u32::MAX as u64 / bpp as u64 {
            proof {
                assert(bpp * pixels > u32::MAX) by (nonlinear_arith)
                    requires
                        pixels > u32::MAX as int / bpp as int,
                        bpp >= 1,
                ;
            }
            return Err(DeviceError::BadResolution);
        }
        proof {
            assert(bpp * pixels <= u32::MAX) by (nonlinear_arith)
                requires
                    pixels <= u32::MAX as int / bpp as int,
                    bpp >= 1,
            ;
        }
        let bayer_ok = resolution.0 % 2 == 0 && resolution.1 % 2 == 0 && resolution.0 >= 4
            && resolution.1 >= 4;
        if format == PixelFormat::Rggb && !bayer_ok {
            return Err(DeviceError::BadResolution);
        }
        if format == PixelFormat::Yuyv && pixels % 2 != 0 {
            return Err(DeviceError::BadResolution);
        }
        if interval.1 == 0 {
            return Err(DeviceError::BadInterval);
        }
        let frame_size = (bpp as u64 * pixels) as usize;
        Ok(Cam { resolution, interval, format, frame_size, pixels: pixels as usize })
    }

    pub fn get_resolution(&self) -> (r: [u32; 2])
        ensures
            r@ == seq![self@.resolution.0, self@.resolution.1],
    {
        let r = [self.resolution.0, self.resolution.1];
        assert(r@ =~= seq![self@.resolution.0, self@.resolution.1]);
        r
    }

    pub fn get_interval(&self) -> (r: (u32, u32))
        ensures
            r == self@.interval,
    {
        self.interval
    }

    /// The four-byte code of the negotiated format.
    pub fn get_format(&self) -> (r: [u8; 4])
        ensures
            r@ == self@.format.spec_tag(),
    {
        self.format.tag()
    }

    pub fn pixel_format(&self) -> (r: PixelFormat)
        ensures
            r == self@.format,
    {
        self.format
    }

    pub fn get_pixels(&self) -> (r: usize)
        ensures
            r == self@.pixels,
            r == self@.resolution.0 * self@.resolution.1,
    {
        proof {
            use_type_invariant(self);
        }
        self.pixels
    }

    pub fn get_frame_size(&self) -> (r: usize)
        ensures
            r == self@.frame_size,
            r == self@.format.spec_bytes_per_pixel() * self@.resolution.0 * self@.resolution.1,
    {
        proof {
            use_type_invariant(self);
            assert(self@.format.spec_bytes_per_pixel() * self@.pixels
                == self@.format.spec_bytes_per_pixel() * self@.resolution.0 * self@.resolution.1)
                by (nonlinear_arith)
                requires
                    self@.pixels == self@.resolution.0 * self@.resolution.1,
            ;
        }
        self.frame_size
    }

    pub fn is_grey(&self) -> (r: bool)
        ensures
            r == (self@.format == PixelFormat::Grey),
    {
        self.format == PixelFormat::Grey
    }
}

/// Frames further apart than this many microseconds count as a drop: 1.1
/// times the nominal interval, truncated.
pub open spec fn drop_threshold(interval: (u32, u32)) -> int {
    (interval.0 as int) * 1_100_000 / (interval.1 as int)
}

/// Whether more than 1.1 frame intervals passed between the previous
/// processed timestamp `prev` and `t` (both in microseconds).
pub fn is_drop(t: u64, prev: u64, interval: (u32, u32)) -> (r: bool)
    requires
        interval.1 != 0,
    ensures
        r == (t - prev > drop_threshold(interval)),
{
    let threshold = interval.0 as u64 * 1_100_000 / interval.1 as u64;
    t > prev && t - prev > threshold
}

} // verus!
