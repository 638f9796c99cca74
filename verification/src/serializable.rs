//! Serialisable forms of components, for transmission over the network.

use vstd::prelude::*;
use crate::components::ImgConfig;

verus! {

/// Conversion of a component into its serialisable form.
pub trait ToSerializable<S> {
    fn to_serializable(&self) -> S;
}

/// Conversion of a serialisable form back into the component.
pub trait FromSerializable<S>: Sized {
    fn from_serializable(s: &S) -> Self;
}

/// Faces of a mesh as a matrix of vertex indices, stored column by column.
pub struct SerializableFaces {
    pub rows: usize,
    pub cols: usize,
    pub data: Vec<u32>,
}

/// Edges as a matrix of vertex index pairs, stored column by column.
pub struct SerializableEdges {
    pub rows: usize,
    pub cols: usize,
    pub data: Vec<u32>,
}

/// Serialisable form of [`ImgConfig`].
#[derive(PartialEq, Eq, Structural, Debug, Clone, Copy)]
pub struct SerializableImgConfig {
    pub keep_on_cpu: bool,
    pub fast_upload: bool,
    pub generate_mipmaps: bool,
    pub mipmap_generation_cpu: bool,
}

/// Raw pixels of an image: 1 channel is luma, 2 luma and alpha, 3 RGB,
/// 4 RGBA, 8 bits each.
pub struct SerializableImageData {
    pub width: u32,
    pub height: u32,
    pub channels: u8,
    pub data: Vec<u8>,
}

/// Serialisable form of a generic image: its path and pixels, if any.
pub struct SerializableGenericImg {
    pub path: Option<String>,
    pub image_data: Option<SerializableImageData>,
    pub config: SerializableImgConfig,
}

/// Serialisable form of a diffuse image.
pub struct SerializableDiffuseImg {
    pub generic_img: SerializableGenericImg,
}

/// The serialisable form of an image configuration: the same four flags.
pub open spec fn img_config_to_serializable(c: ImgConfig) -> SerializableImgConfig {
    SerializableImgConfig {
        keep_on_cpu: c.keep_on_cpu,
        fast_upload: c.fast_upload,
        generate_mipmaps: c.generate_mipmaps,
        mipmap_generation_cpu: c.mipmap_generation_cpu,
    }
}

/// The image configuration of a serialisable form: the same four flags.
pub open spec fn img_config_from_serializable(s: SerializableImgConfig) -> ImgConfig {
    ImgConfig {
        keep_on_cpu: s.keep_on_cpu,
        fast_upload: s.fast_upload,
        generate_mipmaps: s.generate_mipmaps,
        mipmap_generation_cpu: s.mipmap_generation_cpu,
    }
}

impl ToSerializable<SerializableImgConfig> for ImgConfig {
    fn to_serializable(&self) -> (r: SerializableImgConfig)
        ensures
            r == img_config_to_serializable(*self),
            r.keep_on_cpu == self.keep_on_cpu,
            r.fast_upload == self.fast_upload,
            r.generate_mipmaps == self.generate_mipmaps,
            r.mipmap_generation_cpu == self.mipmap_generation_cpu,
    {
        SerializableImgConfig {
            keep_on_cpu: self.keep_on_cpu,
            fast_upload: self.fast_upload,
            generate_mipmaps: self.generate_mipmaps,
            mipmap_generation_cpu: self.mipmap_generation_cpu,
        }
    }
}

impl FromSerializable<SerializableImgConfig> for ImgConfig {
    fn from_serializable(s: &SerializableImgConfig) -> (r: ImgConfig)
        ensures
            r == img_config_from_serializable(*s),
            r.keep_on_cpu == s.keep_on_cpu,
            r.fast_upload == s.fast_upload,
            r.generate_mipmaps == s.generate_mipmaps,
            r.mipmap_generation_cpu == s.mipmap_generation_cpu,
    {
        ImgConfig {
            keep_on_cpu: s.keep_on_cpu,
            fast_upload: s.fast_upload,
            generate_mipmaps: s.generate_mipmaps,
            mipmap_generation_cpu: s.mipmap_generation_cpu,
        }
    }
}

/// An image configuration survives its serialisable form, and a
/// serialisable form survives the configuration made from it.
pub proof fn law_img_config_roundtrip(c: ImgConfig, s: SerializableImgConfig)
    ensures
        img_config_from_serializable(img_config_to_serializable(c)) == c,
        img_config_to_serializable(img_config_from_serializable(s)) == s,
{
}

/// Each flag of an image configuration travels under its own name: the
/// serialisable form and the configuration read back from one carry every
/// flag unchanged, not moved to another.
pub proof fn law_img_config_flags_keep_their_names(c: ImgConfig, s: SerializableImgConfig)
    ensures
        img_config_to_serializable(c).keep_on_cpu == c.keep_on_cpu,
        img_config_to_serializable(c).fast_upload == c.fast_upload,
        img_config_to_serializable(c).generate_mipmaps == c.generate_mipmaps,
        img_config_to_serializable(c).mipmap_generation_cpu == c.mipmap_generation_cpu,
        img_config_from_serializable(s).keep_on_cpu == s.keep_on_cpu,
        img_config_from_serializable(s).fast_upload == s.fast_upload,
        img_config_from_serializable(s).generate_mipmaps == s.generate_mipmaps,
        img_config_from_serializable(s).mipmap_generation_cpu == s.mipmap_generation_cpu,
{
}

} // verus!
