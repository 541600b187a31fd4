//! The ways in which encoded chunks are joined.

use vstd::prelude::*;

verus! {

/// What joins the chunks.
#[derive(Clone, Copy, Debug, PartialEq, Eq, Structural)]
pub enum ConcatMethod {
    MKVMerge,
    FFmpeg,
    Ivf,
}

/// That no way of joining chunks has a given name.
#[derive(Clone, Copy, Debug, PartialEq, Eq, Structural)]
pub struct UnknownConcatMethod;

impl ConcatMethod {
    /// The name under which the method is chosen.
    pub open spec fn name(self) -> Seq<char> {
        match self {
            ConcatMethod::MKVMerge => "mkvmerge"@,
            ConcatMethod::FFmpeg => "ffmpeg"@,
            ConcatMethod::Ivf => "ivf"@,
        }
    }

    /// The name under which the method is chosen.
    pub fn as_str(self) -> (name: &'static str)
        ensures
            name@ == self.name(),
            self == ConcatMethod::MKVMerge ==> name@ == "mkvmerge"@,
            self == ConcatMethod::FFmpeg ==> name@ == "ffmpeg"@,
            self == ConcatMethod::Ivf ==> name@ == "ivf"@,
    {
        match self {
            ConcatMethod::MKVMerge => "mkvmerge",
            ConcatMethod::FFmpeg => "ffmpeg",
            ConcatMethod::Ivf => "ivf",
        }
    }

    /// The name under which the method is chosen.
    pub fn to_string(self) -> (name: String)
        ensures
            name@ == self.name(),
    {
        self.as_str().to_owned()
    }

    /// The method that is chosen under the name `text`.
    pub fn from_str(text: &str) -> (method: Result<ConcatMethod, UnknownConcatMethod>)
        ensures
            match method {
                Ok(method) => text@ == method.name(),
                Err(_) => forall|method: ConcatMethod| text@ != #[trigger] method.name(),
            },
    {
        let name: String = text.to_owned();
        if name == ConcatMethod::MKVMerge.to_string() {
            Ok(ConcatMethod::MKVMerge)
        } else if name == ConcatMethod::FFmpeg.to_string() {
            Ok(ConcatMethod::FFmpeg)
        } else if name == ConcatMethod::Ivf.to_string() {
            Ok(ConcatMethod::Ivf)
        } else {
            Err(UnknownConcatMethod)
        }
    }
}

/// No two methods have the same name, so the method that is chosen under a name is the one that has
/// it.
pub proof fn names_differ(one: ConcatMethod, other: ConcatMethod)
    requires
        one.name() == other.name(),
    ensures
        one == other,
{
    reveal_strlit("mkvmerge");
    reveal_strlit("ffmpeg");
    reveal_strlit("ivf");
    assert("mkvmerge"@.len() == 8);
    assert("ffmpeg"@.len() == 6);
    assert("ivf"@.len() == 3);
}

} // verus!
