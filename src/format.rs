//! The closed set of sensor encodings that the decoder understands.
use vstd::prelude::*;

verus! {

/// A raw pixel encoding, identified on the device by a four-byte code.
#[derive(Clone, Copy, Debug, PartialEq, Eq, Structural)]
pub enum PixelFormat {
    /// Packed 4:2:2 luma/chroma, two bytes per pixel (`YUYV`).
    Yuyv,
    /// 8-bit grayscale (`GREY`).
    Grey,
    /// 8-bit RGGB Bayer mosaic (`RGGB`).
    Rggb,
    /// Packed blue-green-red, three bytes per pixel (`BGR3`).
    Bgr3,
    /// Packed red-green-blue, three bytes per pixel (`RGB3`).
    Rgb3,
}

impl PixelFormat {
    /// The device's four-byte code for this format, in ASCII: `YUYV`, `GREY`,
    /// `RGGB`, `BGR3` and `RGB3`.
    pub open spec fn spec_tag(self) -> Seq<u8> {
        match self {
            PixelFormat::Yuyv => seq![89u8, 85u8, 89u8, 86u8],
            PixelFormat::Grey => seq![71u8, 82u8, 69u8, 89u8],
            PixelFormat::Rggb => seq![82u8, 71u8, 71u8, 66u8],
            PixelFormat::Bgr3 => seq![66u8, 71u8, 82u8, 51u8],
            PixelFormat::Rgb3 => seq![82u8, 71u8, 66u8, 51u8],
        }
    }

    /// Preference among formats that a device offers: higher is better.
    pub open spec fn spec_priority(self) -> int {
        match self {
            PixelFormat::Yuyv => 1,
            PixelFormat::Grey => 2,
            PixelFormat::Rggb => 3,
            PixelFormat::Bgr3 => 4,
            PixelFormat::Rgb3 => 5,
        }
    }

    /// Bytes of raw frame per pixel.
    pub open spec fn spec_bytes_per_pixel(self) -> int {
        match self {
            PixelFormat::Yuyv => 2,
            PixelFormat::Grey | PixelFormat::Rggb => 1,
            PixelFormat::Bgr3 | PixelFormat::Rgb3 => 3,
        }
    }

    pub fn tag(&self) -> (r: [u8; 4])
        ensures
            r@ == self.spec_tag(),
    {
        let r = match self {
            PixelFormat::Yuyv => [89u8, 85u8, 89u8, 86u8],
            PixelFormat::Grey => [71u8, 82u8, 69u8, 89u8],
            PixelFormat::Rggb => [82u8, 71u8, 71u8, 66u8],
            PixelFormat::Bgr3 => [66u8, 71u8, 82u8, 51u8],
            PixelFormat::Rgb3 => [82u8, 71u8, 66u8, 51u8],
        };
        assert(r@ =~= self.spec_tag());
        r
    }

    /// The format whose code is `tag`, if the decoder understands it.
    pub fn from_tag(tag: &[u8; 4]) -> (r: Option<PixelFormat>)
        ensures
            match r {
                Some(f) => f.spec_tag() == tag@,
                None => forall|f: PixelFormat| f.spec_tag() != tag@,
            },
    {
        let (a, b, c, d) = (tag[0], tag[1], tag[2], tag[3]);
        let r = if a == 89 && b == 85 && c == 89 && d == 86 {
            Some(PixelFormat::Yuyv)
        } else if a == 71 && b == 82 && c == 69 && d == 89 {
            Some(PixelFormat::Grey)
        } else if a == 82 && b == 71 && c == 71 && d == 66 {
            Some(PixelFormat::Rggb)
        } else if a == 66 && b == 71 && c == 82 && d == 51 {
            Some(PixelFormat::Bgr3)
        } else if a == 82 && b == 71 && c == 66 && d == 51 {
            Some(PixelFormat::Rgb3)
        } else {
            None
        };
        proof {
            match r {
                Some(f) => {
                    assert(f.spec_tag() =~= tag@);
                },
                None => {
                    assert forall|f: PixelFormat| f.spec_tag() != tag@ by {
                        if f.spec_tag() == tag@ {
                            assert(f.spec_tag()[0] == a && f.spec_tag()[1] == b);
                            assert(f.spec_tag()[2] == c && f.spec_tag()[3] == d);
                        }
                    }
                },
            }
        }
        r
    }

    pub fn priority(&self) -> (r: u8)
        ensures
            r == self.spec_priority(),
    {
        match self {
            PixelFormat::Yuyv => 1,
            PixelFormat::Grey => 2,
            PixelFormat::Rggb => 3,
            PixelFormat::Bgr3 => 4,
            PixelFormat::Rgb3 => 5,
        }
    }

    pub fn bytes_per_pixel(&self) -> (r: u32)
        ensures
            r == self.spec_bytes_per_pixel(),
    {
        match self {
            PixelFormat::Yuyv => 2,
            PixelFormat::Grey | PixelFormat::Rggb => 1,
            PixelFormat::Bgr3 | PixelFormat::Rgb3 => 3,
        }
    }
}

} // verus!
