use vstd::prelude::*;
use crate::text::str_eq;

verus! {

/// How the bytes of an input file are packed.
#[derive(Debug, Clone, Copy, PartialEq, Eq, Structural)]
pub enum Codec {
    Plain,
    Bzip2,
    Zstd,
}

/// The codec that a file extension names: `bz2`, `zst`, or plain text otherwise.
pub open spec fn codec_of(extension: Seq<char>) -> Codec {
    if extension == "bz2"@ {
        Codec::Bzip2
    } else if extension == "zst"@ {
        Codec::Zstd
    } else {
        Codec::Plain
    }
}

/// Chooses the codec for a file extension.
pub fn codec_for(extension: &str) -> (r: Codec)
    ensures
        r == codec_of(extension@),
{
    if str_eq(extension, "bz2") {
        Codec::Bzip2
    } else if str_eq(extension, "zst") {
        Codec::Zstd
    } else {
        Codec::Plain
    }
}

} // verus!
