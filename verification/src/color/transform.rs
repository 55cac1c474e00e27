//! The ICC conversion: its settings (rendering intent, black point
//! compensation, target colour space, with their stable names) and the
//! conversion of an RGB image from an input profile to an output profile
//! through lcms2.
use vstd::prelude::*;

use crate::preview::well_sized;
use crate::text::str_equals;
use crate::tiff::{PixelData, PixelDataV, RgbPixels};
use lcms2::{ColorSpaceSignature, Flags, Intent, PixelFormat, Profile, Transform};

verus! {

/// Rendering intent of an ICC transform.
#[derive(Debug, Clone, Copy, PartialEq, Eq)]
pub enum IccIntent {
    Perceptual,
    RelativeColorimetric,
    AbsoluteColorimetric,
    Saturation,
}

/// The stable name of an intent.
pub open spec fn intent_name(i: IccIntent) -> Seq<char> {
    match i {
        IccIntent::Perceptual => "perceptual"@,
        IccIntent::RelativeColorimetric => "relative"@,
        IccIntent::AbsoluteColorimetric => "absolute"@,
        IccIntent::Saturation => "saturation"@,
    }
}

/// The intent a name (or its one-letter abbreviation) stands for.
pub open spec fn intent_named(s: Seq<char>) -> Option<IccIntent> {
    if s == "perceptual"@ || s == "p"@ {
        Some(IccIntent::Perceptual)
    } else if s == "relative"@ || s == "r"@ {
        Some(IccIntent::RelativeColorimetric)
    } else if s == "absolute"@ || s == "a"@ {
        Some(IccIntent::AbsoluteColorimetric)
    } else if s == "saturation"@ || s == "s"@ {
        Some(IccIntent::Saturation)
    } else {
        None
    }
}

impl Default for IccIntent {
    fn default() -> (r: Self)
        ensures
            r == IccIntent::Perceptual,
    {
        IccIntent::Perceptual
    }
}

impl IccIntent {
    /// The stable name of the intent.
    pub fn to_str(&self) -> (r: &'static str)
        ensures
            r@ == intent_name(*self),
    {
        match self {
            IccIntent::Perceptual => "perceptual",
            IccIntent::RelativeColorimetric => "relative",
            IccIntent::AbsoluteColorimetric => "absolute",
            IccIntent::Saturation => "saturation",
        }
    }

    /// The intent named by `s` (full name or first letter), if any.
    pub fn from_str(s: &str) -> (r: Option<Self>)
        ensures
            r == intent_named(s@),
    {
        if str_equals(s, "perceptual") || str_equals(s, "p") {
            Some(IccIntent::Perceptual)
        } else if str_equals(s, "relative") || str_equals(s, "r") {
            Some(IccIntent::RelativeColorimetric)
        } else if str_equals(s, "absolute") || str_equals(s, "a") {
            Some(IccIntent::AbsoluteColorimetric)
        } else if str_equals(s, "saturation") || str_equals(s, "s") {
            Some(IccIntent::Saturation)
        } else {
            None
        }
    }
}

/// All parameters of an ICC transform.
#[derive(Debug, Clone, Copy)]
pub struct IccSettings {
    /// The rendering intent.
    pub intent: IccIntent,
    /// Whether black point compensation is on.
    pub black_point_compensation: bool,
}

impl Default for IccSettings {
    fn default() -> (r: Self)
        ensures
            r.intent == IccIntent::Perceptual,
            !r.black_point_compensation,
    {
        IccSettings { intent: IccIntent::Perceptual, black_point_compensation: false }
    }
}

/// Target (output) colour space of the ICC conversion.
#[derive(Debug, Clone, Copy, PartialEq, Eq)]
pub enum TargetColorSpace {
    ProPhotoRGB,
    SRGB,
    AdobeRGB,
    DisplayP3,
}

/// The display name of a colour space.
pub open spec fn space_label(t: TargetColorSpace) -> Seq<char> {
    match t {
        TargetColorSpace::SRGB => "sRGB"@,
        TargetColorSpace::AdobeRGB => "Adobe RGB (1998)"@,
        TargetColorSpace::ProPhotoRGB => "ProPhoto RGB"@,
        TargetColorSpace::DisplayP3 => "Display P3"@,
    }
}

/// The stable name of a colour space.
pub open spec fn space_name(t: TargetColorSpace) -> Seq<char> {
    match t {
        TargetColorSpace::SRGB => "sRGB"@,
        TargetColorSpace::AdobeRGB => "AdobeRGB"@,
        TargetColorSpace::ProPhotoRGB => "ProPhotoRGB"@,
        TargetColorSpace::DisplayP3 => "DisplayP3"@,
    }
}

/// The colour space a stable name stands for; anything else is ProPhoto RGB.
pub open spec fn space_named(s: Seq<char>) -> TargetColorSpace {
    if s == "sRGB"@ {
        TargetColorSpace::SRGB
    } else if s == "AdobeRGB"@ {
        TargetColorSpace::AdobeRGB
    } else if s == "DisplayP3"@ {
        TargetColorSpace::DisplayP3
    } else {
        TargetColorSpace::ProPhotoRGB
    }
}

impl TargetColorSpace {
    /// The display name.
    pub fn label(&self) -> (r: &'static str)
        ensures
            r@ == space_label(*self),
    {
        match self {
            TargetColorSpace::SRGB => "sRGB",
            TargetColorSpace::AdobeRGB => "Adobe RGB (1998)",
            TargetColorSpace::ProPhotoRGB => "ProPhoto RGB",
            TargetColorSpace::DisplayP3 => "Display P3",
        }
    }

    /// The stable name.
    pub fn to_str(&self) -> (r: &'static str)
        ensures
            r@ == space_name(*self),
    {
        match self {
            TargetColorSpace::SRGB => "sRGB",
            TargetColorSpace::AdobeRGB => "AdobeRGB",
            TargetColorSpace::ProPhotoRGB => "ProPhotoRGB",
            TargetColorSpace::DisplayP3 => "DisplayP3",
        }
    }

    /// The colour space with stable name `s`; ProPhoto RGB for any other text.
    pub fn from_str(s: &str) -> (r: Self)
        ensures
            r == space_named(s@),
    {
        if str_equals(s, "sRGB") {
            TargetColorSpace::SRGB
        } else if str_equals(s, "AdobeRGB") {
            TargetColorSpace::AdobeRGB
        } else if str_equals(s, "DisplayP3") {
            TargetColorSpace::DisplayP3
        } else {
            TargetColorSpace::ProPhotoRGB
        }
    }
}

impl Default for TargetColorSpace {
    fn default() -> (r: Self)
        ensures
            r == TargetColorSpace::SRGB,
    {
        TargetColorSpace::SRGB
    }
}

/// Reading back the stable name of an intent gives the intent.
pub proof fn lemma_intent_name_round_trip(i: IccIntent)
    ensures
        intent_named(intent_name(i)) == Some(i),
{
    reveal_strlit("perceptual");
    reveal_strlit("p");
    reveal_strlit("relative");
    reveal_strlit("r");
    reveal_strlit("absolute");
    reveal_strlit("a");
    reveal_strlit("saturation");
    reveal_strlit("s");
    assert("perceptual"@[0] != "relative"@[0]);
    assert("perceptual"@[0] != "absolute"@[0]);
    assert("perceptual"@[0] != "saturation"@[0]);
    assert("relative"@[0] != "absolute"@[0]);
    assert("relative"@[0] != "saturation"@[0]);
    assert("absolute"@[0] != "saturation"@[0]);
    assert("perceptual"@ != "relative"@);
    assert("perceptual"@ != "absolute"@);
    assert("perceptual"@ != "saturation"@);
    assert("relative"@ != "absolute"@);
    assert("relative"@ != "saturation"@);
    assert("absolute"@ != "saturation"@);
}

/// Reading back the stable name of a colour space gives the colour space.
pub proof fn lemma_space_name_round_trip(t: TargetColorSpace)
    ensures
        space_named(space_name(t)) == t,
{
    reveal_strlit("sRGB");
    reveal_strlit("AdobeRGB");
    reveal_strlit("DisplayP3");
    reveal_strlit("ProPhotoRGB");
    assert("sRGB"@[0] != "AdobeRGB"@[0]);
    assert("sRGB"@[0] != "DisplayP3"@[0]);
    assert("sRGB"@[0] != "ProPhotoRGB"@[0]);
    assert("AdobeRGB"@[0] != "DisplayP3"@[0]);
    assert("AdobeRGB"@[0] != "ProPhotoRGB"@[0]);
    assert("DisplayP3"@[0] != "ProPhotoRGB"@[0]);
    assert("sRGB"@ != "AdobeRGB"@);
    assert("sRGB"@ != "DisplayP3"@);
    assert("sRGB"@ != "ProPhotoRGB"@);
    assert("AdobeRGB"@ != "DisplayP3"@);
    assert("AdobeRGB"@ != "ProPhotoRGB"@);
    assert("DisplayP3"@ != "ProPhotoRGB"@);
}

/// Why an ICC conversion failed.
#[derive(Debug, Clone, Copy, PartialEq, Eq)]
pub enum IccError {
    /// lcms2 cannot read the input profile.
    InputProfile,
    /// lcms2 cannot read the output profile.
    OutputProfile,
    /// The output profile's colour space is not RGB.
    OutputNotRgb,
    /// lcms2 cannot build the transform between the two profiles.
    Transform,
}

/// What lcms2 reads from profile bytes: `None` when it cannot read them as a
/// profile, else whether the profile's colour space is RGB.
pub uninterp spec fn icc_profile_rgb(icc: Seq<u8>) -> Option<bool>;

/// `lcms2::Profile::new_icc` on the bytes, then `Profile::color_space`:
/// `None` when the profile cannot be read, else whether the colour space is
/// `RgbData`. Parsing depends on the bytes alone, so the answer is named.
#[verifier::external_body]
fn icc_is_rgb(icc: &[u8]) -> (r: Option<bool>)
    ensures
        r == icc_profile_rgb(icc@),
{
    match Profile::new_icc(icc) {
        Ok(p) => match p.color_space() {
            ColorSpaceSignature::RgbData => Some(true),
            _ => Some(false),
        },
        Err(_) => None,
    }
}

/// lcms2's flag bits for black point compensation (`cmsFLAGS_BLACKPOINTCOMPENSATION`).
pub const BLACKPOINT_COMPENSATION_BITS: u32 = 0x2000;

/// The lcms2 transform flags of a setting: black point compensation or none.
pub fn transform_flag_bits(bpc: bool) -> (r: u32)
    ensures
        r == if bpc { BLACKPOINT_COMPENSATION_BITS } else { 0 },
{
    if bpc {
        BLACKPOINT_COMPENSATION_BITS
    } else {
        0
    }
}

/// lcms2 on 8-bit RGB samples: both profiles read with `Profile::new_icc`,
/// a transform built with `Transform::new_flags` (RGB_8 in and out, the
/// intent, the flag bits), and a copy of the samples converted by
/// `transform_in_place`.
/// `None` when a profile cannot be read or the transform cannot be built;
/// otherwise as many samples as went in. Which samples lcms2 computes
/// (floating point inside lcms2) is not stated.
#[verifier::external_body]
fn lcms_transform_rgb8(input_icc: &[u8], output_icc: &[u8], intent: IccIntent, flags: u32, px: &[u8]) -> (r: Option<Vec<u8>>)
    requires
        px@.len() % 3 == 0,
    ensures
        r matches Some(v) ==> v@.len() == px@.len(),
{
    let (i, o) = (Profile::new_icc(input_icc).ok()?, Profile::new_icc(output_icc).ok()?);
    let mut f = Flags::default();
    f.0 = flags;
    let it = match intent {
        IccIntent::Perceptual => Intent::Perceptual,
        IccIntent::RelativeColorimetric => Intent::RelativeColorimetric,
        IccIntent::AbsoluteColorimetric => Intent::AbsoluteColorimetric,
        IccIntent::Saturation => Intent::Saturation,
    };
    let t = Transform::<u8, u8>::new_flags(&i, PixelFormat::RGB_8, &o, PixelFormat::RGB_8, it, f).ok()?;
    let mut out = px.to_vec();
    t.transform_in_place(&mut out);
    Some(out)
}

/// lcms2 on 16-bit RGB samples, as `lcms_transform_rgb8` with RGB_16 and
/// pixels of three samples; the intent and flag bits are handed over as
/// lcms2's `Intent` and `Flags`.
#[verifier::external_body]
fn lcms_transform_rgb16(input_icc: &[u8], output_icc: &[u8], intent: IccIntent, flags: u32, px: &[u16]) -> (r: Option<Vec<u16>>)
    requires
        px@.len() % 3 == 0,
    ensures
        r matches Some(v) ==> v@.len() == px@.len(),
{
    let (i, o) = (Profile::new_icc(input_icc).ok()?, Profile::new_icc(output_icc).ok()?);
    let mut f = Flags::default();
    f.0 = flags;
    let it = match intent {
        IccIntent::Perceptual => Intent::Perceptual,
        IccIntent::RelativeColorimetric => Intent::RelativeColorimetric,
        IccIntent::AbsoluteColorimetric => Intent::AbsoluteColorimetric,
        IccIntent::Saturation => Intent::Saturation,
    };
    let t = Transform::<[u16; 3], [u16; 3]>::new_flags(&i, PixelFormat::RGB_16, &o, PixelFormat::RGB_16, it, f).ok()?;
    let mut out: Vec<[u16; 3]> = px.chunks_exact(3).map(|c| [c[0], c[1], c[2]]).collect();
    t.transform_in_place(&mut out);
    Some(out.concat())
}

fn copy_pixels(img: &RgbPixels) -> (r: RgbPixels)
    ensures
        r@ == img@,
{
    let data = match &img.data {
        PixelData::Rgb8(v) => {
            let mut w: Vec<u8> = Vec::new();
            let mut i: usize = 0;
            while i < v.len()
                invariant
                    i <= v@.len(),
                    w@ == v@.take(i as int),
                decreases v@.len() - i,
            {
                w.push(v[i]);
                i = i + 1;
                assert(w@ =~= v@.take(i as int));
            }
            assert(v@.take(v@.len() as int) =~= v@);
            PixelData::Rgb8(w)
        },
        PixelData::Rgb16(v) => {
            let mut w: Vec<u16> = Vec::new();
            let mut i: usize = 0;
            while i < v.len()
                invariant
                    i <= v@.len(),
                    w@ == v@.take(i as int),
                decreases v@.len() - i,
            {
                w.push(v[i]);
                i = i + 1;
                assert(w@ =~= v@.take(i as int));
            }
            assert(v@.take(v@.len() as int) =~= v@);
            PixelData::Rgb16(w)
        },
    };
    RgbPixels { width: img.width, height: img.height, data }
}

/// Whether two images have the same size and sample depth.
pub open spec fn same_shape(a: crate::tiff::RgbPixelsV, b: crate::tiff::RgbPixelsV) -> bool {
    &&& a.width == b.width
    &&& a.height == b.height
    &&& match (a.data, b.data) {
        (PixelDataV::Rgb8(x), PixelDataV::Rgb8(y)) => x.len() == y.len(),
        (PixelDataV::Rgb16(x), PixelDataV::Rgb16(y)) => x.len() == y.len(),
        _ => false,
    }
}

/// Converts an RGB image from the input profile to the output profile.
/// Identical profile bytes give the image back unchanged (lcms2 would add
/// quantisation error through its connection space). Otherwise the input
/// profile must be readable, then the output profile readable and RGB, in
/// that order; then lcms2 converts the samples at the image's depth with the
/// settings' intent and black point compensation. The result keeps the
/// size and depth.
pub fn apply_icc_transform_profiles(img: &RgbPixels, input_icc: &[u8], output_icc: &[u8], settings: IccSettings) -> (r: Result<RgbPixels, IccError>)
    requires
        well_sized(img@),
    ensures
        input_icc@ == output_icc@ ==> (r matches Ok(p) && p@ == img@),
        input_icc@ != output_icc@ && icc_profile_rgb(input_icc@) is None ==> (r matches Err(e) && e == IccError::InputProfile),
        input_icc@ != output_icc@ && icc_profile_rgb(input_icc@) is Some && icc_profile_rgb(output_icc@) is None ==> (
            r matches Err(e) && e == IccError::OutputProfile),
        input_icc@ != output_icc@ && icc_profile_rgb(input_icc@) is Some && icc_profile_rgb(output_icc@) == Some(false)
            ==> (r matches Err(e) && e == IccError::OutputNotRgb),
        r matches Err(e) && e == IccError::Transform ==> input_icc@ != output_icc@ && icc_profile_rgb(input_icc@)
            is Some && icc_profile_rgb(output_icc@) == Some(true),
        r matches Ok(p) ==> same_shape(p@, img@) && well_sized(p@),
{
    if crate::text::bytes_equal(input_icc, output_icc) {
        return Ok(copy_pixels(img));
    }
    match icc_is_rgb(input_icc) {
        None => return Err(IccError::InputProfile),
        Some(_) => {},
    }
    match icc_is_rgb(output_icc) {
        None => return Err(IccError::OutputProfile),
        Some(false) => return Err(IccError::OutputNotRgb),
        Some(true) => {},
    }
    let flags = transform_flag_bits(settings.black_point_compensation);
    proof {
        vstd::arithmetic::div_mod::lemma_mod_multiples_basic(img.width * img.height, 3);
        assert((img.width * img.height * 3) % 3 == 0) by (nonlinear_arith);
    }
    match &img.data {
        PixelData::Rgb8(v) => match lcms_transform_rgb8(input_icc, output_icc, settings.intent, flags, v.as_slice()) {
            Some(out) => Ok(RgbPixels { width: img.width, height: img.height, data: PixelData::Rgb8(out) }),
            None => Err(IccError::Transform),
        },
        PixelData::Rgb16(v) => match lcms_transform_rgb16(input_icc, output_icc, settings.intent, flags, v.as_slice()) {
            Some(out) => Ok(RgbPixels { width: img.width, height: img.height, data: PixelData::Rgb16(out) }),
            None => Err(IccError::Transform),
        },
    }
}

} // verus!
