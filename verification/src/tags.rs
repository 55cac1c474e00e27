//! Readable names for TIFF tag numbers and for the enumerated values of a few
//! standard tags, together with the Hasselblad MakerNote tag names.

use vstd::prelude::*;

verus! {

/// Name of a standard TIFF / EXIF / DNG / Imacon tag, or `None` for a tag outside the table.
pub open spec fn standard_tag_label(tag: u16) -> Option<Seq<char>> {
    match tag {
        0x00FE => Some("NewSubfileType"@),
        0x00FF => Some("SubfileType"@),
        0x0100 => Some("ImageWidth"@),
        0x0101 => Some("ImageLength"@),
        0x0102 => Some("BitsPerSample"@),
        0x0103 => Some("Compression"@),
        0x0106 => Some("PhotometricInterpretation"@),
        0x010E => Some("ImageDescription"@),
        0x010F => Some("Make"@),
        0x0110 => Some("Model"@),
        0x0111 => Some("StripOffsets"@),
        0x0112 => Some("Orientation"@),
        0x0115 => Some("SamplesPerPixel"@),
        0x0116 => Some("RowsPerStrip"@),
        0x0117 => Some("StripByteCounts"@),
        0x011A => Some("XResolution"@),
        0x011B => Some("YResolution"@),
        0x011C => Some("PlanarConfiguration"@),
        0x0128 => Some("ResolutionUnit"@),
        0x0131 => Some("Software"@),
        0x0132 => Some("DateTime"@),
        0x013B => Some("Artist"@),
        0x013D => Some("Predictor"@),
        0x014A => Some("SubIFDs"@),
        0x0153 => Some("SampleFormat"@),
        0x0201 => Some("JPEGInterchangeFormat"@),
        0x0202 => Some("JPEGInterchangeFormatLength"@),
        0x8298 => Some("Copyright"@),
        0x829A => Some("ExposureTime"@),
        0x829D => Some("FNumber"@),
        0x8769 => Some("ExifIFD"@),
        0x8822 => Some("ExposureProgram"@),
        0x8827 => Some("ISOSpeedRatings"@),
        0x9000 => Some("ExifVersion"@),
        0x9003 => Some("DateTimeOriginal"@),
        0x9004 => Some("DateTimeDigitized"@),
        0x9201 => Some("ShutterSpeedValue"@),
        0x9202 => Some("ApertureValue"@),
        0x9204 => Some("ExposureBiasValue"@),
        0x9205 => Some("MaxApertureValue"@),
        0x9207 => Some("MeteringMode"@),
        0x9209 => Some("Flash"@),
        0x920A => Some("FocalLength"@),
        0x927C => Some("MakerNote"@),
        0xA001 => Some("ColorSpace"@),
        0xA002 => Some("PixelXDimension"@),
        0xA003 => Some("PixelYDimension"@),
        0xA420 => Some("ImageUniqueID"@),
        0xA431 => Some("BodySerialNumber"@),
        0xA432 => Some("LensInfo"@),
        0xA434 => Some("LensModel"@),
        0xA435 => Some("LensSerialNumber"@),
        0xC612 => Some("DNGVersion"@),
        0xC613 => Some("DNGBackwardVersion"@),
        0xC614 => Some("UniqueCameraModel"@),
        0xC621 => Some("ColorMatrix1"@),
        0xC622 => Some("ColorMatrix2"@),
        0xC623 => Some("CameraCalibration1"@),
        0xC624 => Some("CameraCalibration2"@),
        0xC628 => Some("AsShotNeutral"@),
        0xC62F => Some("CameraSerialNumber"@),
        0xC65A => Some("CalibrationIlluminant1"@),
        0xC65B => Some("CalibrationIlluminant2"@),
        0xC65D => Some("RawDataUniqueID"@),
        0x8773 => Some("ICCProfile"@),
        0x83BB => Some("IPTC-NAA"@),
        0x8568 => Some("IPTC-NAA (alt)"@),
        0x8649 => Some("PhotoshopImageResources"@),
        0xB4C5 => Some("ImaconRawData"@),
        0xB4C7 => Some("ImaconScanInfo"@),
        0xC519 => Some("ImaconCalibration"@),
        0xC51A => Some("ImaconProfileData"@),
        _ => None,
    }
}

/// Looks up the readable name of a standard TIFF / EXIF / DNG / Imacon tag.
pub fn standard_tag_name(tag: u16) -> (res: Option<&'static str>)
    ensures
        res matches Some(s) ==> standard_tag_label(tag) == Some(s@),
        res is None <==> standard_tag_label(tag) is None,
{
    match tag {
        0x00FE => Some("NewSubfileType"),
        0x00FF => Some("SubfileType"),
        0x0100 => Some("ImageWidth"),
        0x0101 => Some("ImageLength"),
        0x0102 => Some("BitsPerSample"),
        0x0103 => Some("Compression"),
        0x0106 => Some("PhotometricInterpretation"),
        0x010E => Some("ImageDescription"),
        0x010F => Some("Make"),
        0x0110 => Some("Model"),
        0x0111 => Some("StripOffsets"),
        0x0112 => Some("Orientation"),
        0x0115 => Some("SamplesPerPixel"),
        0x0116 => Some("RowsPerStrip"),
        0x0117 => Some("StripByteCounts"),
        0x011A => Some("XResolution"),
        0x011B => Some("YResolution"),
        0x011C => Some("PlanarConfiguration"),
        0x0128 => Some("ResolutionUnit"),
        0x0131 => Some("Software"),
        0x0132 => Some("DateTime"),
        0x013B => Some("Artist"),
        0x013D => Some("Predictor"),
        0x014A => Some("SubIFDs"),
        0x0153 => Some("SampleFormat"),
        0x0201 => Some("JPEGInterchangeFormat"),
        0x0202 => Some("JPEGInterchangeFormatLength"),
        0x8298 => Some("Copyright"),
        0x829A => Some("ExposureTime"),
        0x829D => Some("FNumber"),
        0x8769 => Some("ExifIFD"),
        0x8822 => Some("ExposureProgram"),
        0x8827 => Some("ISOSpeedRatings"),
        0x9000 => Some("ExifVersion"),
        0x9003 => Some("DateTimeOriginal"),
        0x9004 => Some("DateTimeDigitized"),
        0x9201 => Some("ShutterSpeedValue"),
        0x9202 => Some("ApertureValue"),
        0x9204 => Some("ExposureBiasValue"),
        0x9205 => Some("MaxApertureValue"),
        0x9207 => Some("MeteringMode"),
        0x9209 => Some("Flash"),
        0x920A => Some("FocalLength"),
        0x927C => Some("MakerNote"),
        0xA001 => Some("ColorSpace"),
        0xA002 => Some("PixelXDimension"),
        0xA003 => Some("PixelYDimension"),
        0xA420 => Some("ImageUniqueID"),
        0xA431 => Some("BodySerialNumber"),
        0xA432 => Some("LensInfo"),
        0xA434 => Some("LensModel"),
        0xA435 => Some("LensSerialNumber"),
        0xC612 => Some("DNGVersion"),
        0xC613 => Some("DNGBackwardVersion"),
        0xC614 => Some("UniqueCameraModel"),
        0xC621 => Some("ColorMatrix1"),
        0xC622 => Some("ColorMatrix2"),
        0xC623 => Some("CameraCalibration1"),
        0xC624 => Some("CameraCalibration2"),
        0xC628 => Some("AsShotNeutral"),
        0xC62F => Some("CameraSerialNumber"),
        0xC65A => Some("CalibrationIlluminant1"),
        0xC65B => Some("CalibrationIlluminant2"),
        0xC65D => Some("RawDataUniqueID"),
        0x8773 => Some("ICCProfile"),
        0x83BB => Some("IPTC-NAA"),
        0x8568 => Some("IPTC-NAA (alt)"),
        0x8649 => Some("PhotoshopImageResources"),
        0xB4C5 => Some("ImaconRawData"),
        0xB4C7 => Some("ImaconScanInfo"),
        0xC519 => Some("ImaconCalibration"),
        0xC51A => Some("ImaconProfileData"),
        _ => None,
    }
}

/// Name of a Hasselblad MakerNote tag, or `None` for a tag outside the table.
pub open spec fn makernote_tag_label(tag: u16) -> Option<Seq<char>> {
    match tag {
        0x0005 => Some("WhiteBalance"@),
        0x0013 => Some("Quality"@),
        0x0015 => Some("Model"@),
        0x0017 => Some("CameraInfo"@),
        0x0018 => Some("LensInfo"@),
        0x0028 => Some("PhocusVersion"@),
        0x002A => Some("ColorMatrix"@),
        0x0046 => Some("Gain"@),
        0x0047 => Some("FocusPoint"@),
        0x004A => Some("ShutterType"@),
        0x0059 => Some("CropMode"@),
        0x005B => Some("DriveMode"@),
        0x005C => Some("ReleaseCount"@),
        0x0061 => Some("LensSerialNumber"@),
        0x0063 => Some("ExactExposureTime"@),
        _ => None,
    }
}

/// Looks up the readable name of a Hasselblad MakerNote tag.
pub fn makernote_tag_name(tag: u16) -> (res: Option<&'static str>)
    ensures
        res matches Some(s) ==> makernote_tag_label(tag) == Some(s@),
        res is None <==> makernote_tag_label(tag) is None,
{
    match tag {
        0x0005 => Some("WhiteBalance"),
        0x0013 => Some("Quality"),
        0x0015 => Some("Model"),
        0x0017 => Some("CameraInfo"),
        0x0018 => Some("LensInfo"),
        0x0028 => Some("PhocusVersion"),
        0x002A => Some("ColorMatrix"),
        0x0046 => Some("Gain"),
        0x0047 => Some("FocusPoint"),
        0x004A => Some("ShutterType"),
        0x0059 => Some("CropMode"),
        0x005B => Some("DriveMode"),
        0x005C => Some("ReleaseCount"),
        0x0061 => Some("LensSerialNumber"),
        0x0063 => Some("ExactExposureTime"),
        _ => None,
    }
}

/// Readable name of a value of the Orientation tag (0x0112).
pub open spec fn orientation_label(v: u32) -> Seq<char> {
    match v {
        1 => "Normal"@,
        2 => "Flip Horizontal"@,
        3 => "Rotate 180"@,
        4 => "Flip Vertical"@,
        5 => "Transpose"@,
        6 => "Rotate 90 CW"@,
        7 => "Transverse"@,
        8 => "Rotate 270 CW"@,
        _ => "Unknown"@,
    }
}

/// Names a value of the Orientation tag (0x0112); values outside the table are "Unknown".
pub fn orientation_name(v: u32) -> (res: &'static str)
    ensures
        res@ == orientation_label(v),
{
    match v {
        1 => "Normal",
        2 => "Flip Horizontal",
        3 => "Rotate 180",
        4 => "Flip Vertical",
        5 => "Transpose",
        6 => "Rotate 90 CW",
        7 => "Transverse",
        8 => "Rotate 270 CW",
        _ => "Unknown",
    }
}

/// Readable name of a value of the Compression tag (0x0103).
pub open spec fn compression_label(v: u32) -> Seq<char> {
    match v {
        1 => "Uncompressed"@,
        2 => "CCITT 1D"@,
        3 => "Group 3 Fax"@,
        4 => "Group 4 Fax"@,
        5 => "LZW"@,
        6 => "JPEG (old)"@,
        7 => "JPEG"@,
        8 => "Deflate"@,
        32773 => "PackBits"@,
        34713 => "Nikon NEF"@,
        65535 => "Hasselblad Lossless"@,
        _ => "Unknown"@,
    }
}

/// Names a value of the Compression tag (0x0103); values outside the table are "Unknown".
pub fn compression_name(v: u32) -> (res: &'static str)
    ensures
        res@ == compression_label(v),
{
    match v {
        1 => "Uncompressed",
        2 => "CCITT 1D",
        3 => "Group 3 Fax",
        4 => "Group 4 Fax",
        5 => "LZW",
        6 => "JPEG (old)",
        7 => "JPEG",
        8 => "Deflate",
        32773 => "PackBits",
        34713 => "Nikon NEF",
        65535 => "Hasselblad Lossless",
        _ => "Unknown",
    }
}

/// Readable name of a value of the PhotometricInterpretation tag (0x0106).
pub open spec fn photometric_label(v: u32) -> Seq<char> {
    match v {
        0 => "WhiteIsZero"@,
        1 => "BlackIsZero"@,
        2 => "RGB"@,
        3 => "Palette"@,
        4 => "Transparency Mask"@,
        5 => "CMYK"@,
        6 => "YCbCr"@,
        8 => "CIELab"@,
        32803 => "CFA (Color Filter Array)"@,
        34892 => "LinearRaw"@,
        _ => "Unknown"@,
    }
}

/// Names a value of the PhotometricInterpretation tag (0x0106); values outside the table are "Unknown".
pub fn photometric_name(v: u32) -> (res: &'static str)
    ensures
        res@ == photometric_label(v),
{
    match v {
        0 => "WhiteIsZero",
        1 => "BlackIsZero",
        2 => "RGB",
        3 => "Palette",
        4 => "Transparency Mask",
        5 => "CMYK",
        6 => "YCbCr",
        8 => "CIELab",
        32803 => "CFA (Color Filter Array)",
        34892 => "LinearRaw",
        _ => "Unknown",
    }
}

/// Readable name of a value of the EXIF MeteringMode tag (0x9207).
pub open spec fn metering_mode_label(v: u32) -> Seq<char> {
    match v {
        0 => "Unknown"@,
        1 => "Average"@,
        2 => "Center Weighted"@,
        3 => "Spot"@,
        4 => "Multi-Spot"@,
        5 => "Multi-Segment"@,
        6 => "Partial"@,
        255 => "Other"@,
        _ => "Unknown"@,
    }
}

/// Names a value of the EXIF MeteringMode tag (0x9207); values outside the table are "Unknown".
pub fn metering_mode_name(v: u32) -> (res: &'static str)
    ensures
        res@ == metering_mode_label(v),
{
    match v {
        0 => "Unknown",
        1 => "Average",
        2 => "Center Weighted",
        3 => "Spot",
        4 => "Multi-Spot",
        5 => "Multi-Segment",
        6 => "Partial",
        255 => "Other",
        _ => "Unknown",
    }
}

/// Readable name of a value of the MakerNote WhiteBalance tag (0x0005).
pub open spec fn white_balance_label(v: u32) -> Seq<char> {
    match v {
        1 => "Auto"@,
        2 => "Daylight"@,
        3 => "Tungsten"@,
        4 => "Fluorescent"@,
        5 => "Flash"@,
        6 => "Manual"@,
        10 => "Cloudy"@,
        11 => "Shade"@,
        _ => "Unknown"@,
    }
}

/// Names a value of the MakerNote WhiteBalance tag (0x0005); values outside the table are "Unknown".
pub fn white_balance_name(v: u32) -> (res: &'static str)
    ensures
        res@ == white_balance_label(v),
{
    match v {
        1 => "Auto",
        2 => "Daylight",
        3 => "Tungsten",
        4 => "Fluorescent",
        5 => "Flash",
        6 => "Manual",
        10 => "Cloudy",
        11 => "Shade",
        _ => "Unknown",
    }
}

} // verus!
