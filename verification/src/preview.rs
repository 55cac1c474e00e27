//! The preview and thumbnail images of a file: the embedded preview JPEG
//! when the image crate decodes it, otherwise the uncompressed RGB images
//! the library decodes itself, and as a last resort for the preview the
//! whole file read by the image crate as TIFF.

use vstd::prelude::*;
use crate::downscale::largest_downscaled;
use crate::tiff::{ByteOrder, PixelData, PixelDataV, RgbPixels, RgbPixelsV, TiffFile, first_decodable, ifds_view};

verus! {

/// The formats read with the image crate.
#[derive(Debug, Clone, Copy, PartialEq, Eq)]
pub enum ImageKind {
    Jpeg,
    Tiff,
}

/// Three samples per pixel.
pub open spec fn well_sized(p: RgbPixelsV) -> bool {
    match p.data {
        PixelDataV::Rgb8(v) => v.len() == p.width * p.height * 3,
        PixelDataV::Rgb16(v) => v.len() == p.width * p.height * 3,
    }
}

/// `image::load_from_memory_with_format` on `bytes` as JPEG or TIFF: an RGB
/// image of 8 or 16 bits comes back as it is, any other colour type
/// converted by `DynamicImage::into_rgb8`; `None` when decoding fails.
/// The samples the decoder computes are not stated (its code paths depend
/// on the processor), only that there are three per pixel.
#[verifier::external_body]
fn decode_image(bytes: &[u8], kind: ImageKind) -> (r: Option<RgbPixels>)
    ensures
        r matches Some(p) ==> well_sized(p@),
{
    let format = match kind { ImageKind::Jpeg => image::ImageFormat::Jpeg, ImageKind::Tiff => image::ImageFormat::Tiff };
    let (width, height, data) = match image::load_from_memory_with_format(bytes, format) {
        Ok(image::DynamicImage::ImageRgb8(b)) => (b.width(), b.height(), PixelData::Rgb8(b.into_raw())),
        Ok(image::DynamicImage::ImageRgb16(b)) => (b.width(), b.height(), PixelData::Rgb16(b.into_raw())),
        Ok(other) => (other.width(), other.height(), PixelData::Rgb8(other.into_rgb8().into_raw())),
        Err(_) => return None,
    };
    Some(RgbPixels { width, height, data })
}

impl TiffFile {
    /// The preview given the decoded preview JPEG (`None` when there is none
    /// or it does not decode): that image, else the first uncompressed RGB
    /// image that decodes, largest first.
    pub fn preview_from(&self, jpeg: Option<RgbPixels>) -> (r: Option<RgbPixels>)
        ensures
            jpeg is Some ==> r == jpeg,
            jpeg is None ==> first_decodable(self.data@, self.byte_order, ifds_view(self.ifds@), false,
                match r { Some(p) => Some(p@), None => None }),
    {
        match jpeg {
            Some(p) => Some(p),
            None => self.decode_preview_rgb(),
        }
    }

    /// The thumbnail given the decoded preview JPEG: that image, else the
    /// first uncompressed RGB image that decodes, reduced-resolution images
    /// first, then smallest first.
    pub fn thumbnail_from(&self, jpeg: Option<RgbPixels>) -> (r: Option<RgbPixels>)
        ensures
            jpeg is Some ==> r == jpeg,
            jpeg is None ==> first_decodable(self.data@, self.byte_order, ifds_view(self.ifds@), true,
                match r { Some(p) => Some(p@), None => None }),
    {
        match jpeg {
            Some(p) => Some(p),
            None => self.decode_thumbnail_rgb(),
        }
    }

    /// The reduced preview given the decoded preview JPEG: that image as it
    /// is, else the largest uncompressed RGB image reduced to at most
    /// `max_dim` pixels a side.
    pub fn downscaled_from(&self, jpeg: Option<RgbPixels>, max_dim: u32) -> (r: Option<RgbPixels>)
        ensures
            jpeg is Some ==> r == jpeg,
            jpeg is None ==> largest_downscaled(self.data@, self.byte_order, ifds_view(self.ifds@), max_dim as int,
                match r { Some(p) => Some(p@), None => None }),
    {
        match jpeg {
            Some(p) => Some(p),
            None => self.decode_largest_downscaled(max_dim),
        }
    }

    /// The preview JPEG decoded by the image crate: `None` without one, else
    /// what the decoder gives back, three samples per pixel.
    fn decoded_preview_jpeg(&self) -> (r: Option<RgbPixels>)
        ensures
            self.preview_jpeg is None ==> r is None,
            r matches Some(p) ==> well_sized(p@),
    {
        match &self.preview_jpeg {
            Some(j) => decode_image(j.as_slice(), ImageKind::Jpeg),
            None => None,
        }
    }

    /// The preview image: the preview JPEG when it decodes, else the first
    /// uncompressed RGB image that decodes (largest first), else the whole
    /// file decoded as TIFF.
    pub fn decode_preview_image(&self) -> (r: Option<RgbPixels>)
        ensures
            self.preview_jpeg is None && !first_decodable(self.data@, self.byte_order, ifds_view(self.ifds@), false, None)
                ==> first_decodable(self.data@, self.byte_order, ifds_view(self.ifds@), false,
                    match r { Some(p) => Some(p@), None => None }),
            r is None ==> first_decodable(self.data@, self.byte_order, ifds_view(self.ifds@), false, None),
    {
        let jpeg = self.decoded_preview_jpeg();
        let c = self.preview_from(jpeg);
        if c.is_some() {
            return c;
        }
        decode_image(self.data.as_slice(), ImageKind::Tiff)
    }

    /// The thumbnail: the preview JPEG when it decodes, else the first
    /// uncompressed RGB image that decodes, reduced-resolution images first,
    /// then smallest first.
    pub fn decode_thumbnail(&self) -> (r: Option<RgbPixels>)
        ensures
            self.preview_jpeg is None ==> first_decodable(self.data@, self.byte_order, ifds_view(self.ifds@), true,
                match r { Some(p) => Some(p@), None => None }),
            r is None ==> first_decodable(self.data@, self.byte_order, ifds_view(self.ifds@), true, None),
    {
        let jpeg = self.decoded_preview_jpeg();
        self.thumbnail_from(jpeg)
    }

    /// The preview reduced to at most `max_dim` pixels a side: the preview
    /// JPEG as it is when it decodes, else the largest uncompressed RGB image
    /// reduced (`decode_largest_downscaled`).
    pub fn decode_preview_downscaled(&self, max_dim: u32) -> (r: Option<RgbPixels>)
        ensures
            self.preview_jpeg is None ==> largest_downscaled(self.data@, self.byte_order, ifds_view(self.ifds@),
                max_dim as int, match r { Some(p) => Some(p@), None => None }),
            r is None ==> largest_downscaled(self.data@, self.byte_order, ifds_view(self.ifds@), max_dim as int, None),
    {
        let jpeg = self.decoded_preview_jpeg();
        self.downscaled_from(jpeg, max_dim)
    }
}

} // verus!
