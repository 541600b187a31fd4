//! The encoders, and the kinds of files that they write.

use vstd::prelude::*;

verus! {

/// An encoder.
#[allow(non_camel_case_types)]
#[derive(Clone, Copy, Debug, PartialEq, Eq, Structural)]
pub enum Encoder {
    aom,
    rav1e,
    vpx,
    svt_av1,
    x264,
    x265,
}

impl Encoder {
    /// The extension of the files that the encoder writes.
    pub open spec fn spec_extension(self) -> Seq<char> {
        match self {
            Encoder::x264 => "264"@,
            Encoder::x265 => "hevc"@,
            _ => "ivf"@,
        }
    }

    /// The extension of the files that the encoder writes.
    pub fn extension(self) -> (extension: &'static str)
        ensures
            extension@ == self.spec_extension(),
            self == Encoder::x264 ==> extension@ == "264"@,
            self == Encoder::x265 ==> extension@ == "hevc"@,
            self != Encoder::x264 && self != Encoder::x265 ==> extension@ == "ivf"@,
    {
        match self {
            Encoder::x264 => "264",
            Encoder::x265 => "hevc",
            _ => "ivf",
        }
    }
}

} // verus!
