//! The target codecs a caller can select, and the codec identifiers of the
//! engine that they stand for.

use vstd::prelude::*;
use vstd::std_specs::convert::FromSpecImpl;

verus! {

/// The video codecs a conversion can target.
#[derive(Clone, Copy, Debug, PartialEq, Eq, Structural)]
pub enum AtoolCodecType {
    X264,
    X265,
    AV1,
    VP8,
    VP9,
}

/// The codec identifiers that are handed to the engine. `NoCodec` asks for no
/// codec: it is what a copied stream is created with.
#[derive(Clone, Copy, Debug, PartialEq, Eq, Structural)]
pub enum CodecId {
    NoCodec,
    H264,
    H265,
    AV1,
    VP8,
    VP9,
}

/// The conversion table from selector to identifier.
pub open spec fn codec_id_of(value: AtoolCodecType) -> CodecId {
    match value {
        AtoolCodecType::X264 => CodecId::H264,
        AtoolCodecType::X265 => CodecId::H265,
        AtoolCodecType::AV1 => CodecId::AV1,
        AtoolCodecType::VP8 => CodecId::VP8,
        AtoolCodecType::VP9 => CodecId::VP9,
    }
}

impl From<AtoolCodecType> for CodecId {
    fn from(value: AtoolCodecType) -> (id: CodecId)
        ensures
            id == codec_id_of(value),
    {
        match value {
            AtoolCodecType::X264 => CodecId::H264,
            AtoolCodecType::X265 => CodecId::H265,
            AtoolCodecType::AV1 => CodecId::AV1,
            AtoolCodecType::VP8 => CodecId::VP8,
            AtoolCodecType::VP9 => CodecId::VP9,
        }
    }
}

impl FromSpecImpl<AtoolCodecType> for CodecId {
    open spec fn obeys_from_spec() -> bool {
        true
    }

    open spec fn from_spec(value: AtoolCodecType) -> CodecId {
        codec_id_of(value)
    }
}

/// Every selector names a codec of its own, and none of them names "no codec".
pub proof fn lemma_codec_table_injective(a: AtoolCodecType, b: AtoolCodecType)
    ensures
        codec_id_of(a) == codec_id_of(b) ==> a == b,
        codec_id_of(a) != CodecId::NoCodec,
{
}

} // verus!
