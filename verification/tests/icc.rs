use fff_viewer::color::transform::{apply_icc_transform_profiles, transform_flag_bits, IccError, IccIntent, IccSettings};
use fff_viewer::tiff::{PixelData, RgbPixels};

fn srgb_icc() -> Vec<u8> {
    lcms2::Profile::new_srgb().icc().unwrap()
}

fn prophoto_icc() -> Vec<u8> {
    let d50 = lcms2::CIExyY { x: 0.3457, y: 0.3585, Y: 1.0 };
    let primaries = lcms2::CIExyYTRIPLE {
        Red: lcms2::CIExyY { x: 0.7347, y: 0.2653, Y: 0.0 },
        Green: lcms2::CIExyY { x: 0.1596, y: 0.8404, Y: 0.0 },
        Blue: lcms2::CIExyY { x: 0.0366, y: 0.0001, Y: 0.0 },
    };
    let gamma = lcms2::ToneCurve::new(1.8);
    lcms2::Profile::new_rgb(&d50, &primaries, &[&gamma, &gamma, &gamma]).unwrap().icc().unwrap()
}

fn image8() -> RgbPixels {
    RgbPixels { width: 2, height: 1, data: PixelData::Rgb8(vec![0, 0, 0, 200, 30, 40]) }
}

fn settings() -> IccSettings {
    IccSettings { intent: IccIntent::Perceptual, black_point_compensation: false }
}

#[test]
fn identical_profiles_give_the_image_back() {
    let p = srgb_icc();
    let out = apply_icc_transform_profiles(&image8(), &p, &p, settings()).unwrap();
    assert_eq!((out.width, out.height), (2, 1));
    match out.data {
        PixelData::Rgb8(v) => assert_eq!(v, vec![0, 0, 0, 200, 30, 40]),
        PixelData::Rgb16(_) => panic!("expected 8-bit samples"),
    }
    // Identical bytes short-circuit even when lcms2 could not read them.
    let junk = vec![1u8, 2, 3];
    assert!(apply_icc_transform_profiles(&image8(), &junk, &junk, settings()).is_ok());
}

#[test]
fn profile_errors_in_order() {
    let junk = vec![1u8, 2, 3];
    let xyz = lcms2::Profile::new_xyz().icc().unwrap();
    assert_eq!(apply_icc_transform_profiles(&image8(), &junk, &srgb_icc(), settings()).unwrap_err(), IccError::InputProfile);
    assert_eq!(apply_icc_transform_profiles(&image8(), &srgb_icc(), &junk, settings()).unwrap_err(), IccError::OutputProfile);
    assert_eq!(apply_icc_transform_profiles(&image8(), &srgb_icc(), &xyz, settings()).unwrap_err(), IccError::OutputNotRgb);
}

#[test]
fn conversion_keeps_size_and_depth() {
    let out = apply_icc_transform_profiles(&image8(), &srgb_icc(), &prophoto_icc(), settings()).unwrap();
    assert_eq!((out.width, out.height), (2, 1));
    match out.data {
        PixelData::Rgb8(v) => {
            assert_eq!(v.len(), 6);
            assert!(v[0] <= 2 && v[1] <= 2 && v[2] <= 2, "black stays near black: {:?}", v);
            assert_ne!(v[3..6], [200, 30, 40], "the red changes between the spaces");
        }
        PixelData::Rgb16(_) => panic!("expected 8-bit samples"),
    }
    let img16 = RgbPixels { width: 1, height: 2, data: PixelData::Rgb16(vec![65535, 65535, 65535, 1000, 2000, 3000]) };
    let s = IccSettings { intent: IccIntent::RelativeColorimetric, black_point_compensation: true };
    let out = apply_icc_transform_profiles(&img16, &srgb_icc(), &prophoto_icc(), s).unwrap();
    assert_eq!((out.width, out.height), (1, 2));
    match out.data {
        PixelData::Rgb16(v) => {
            assert_eq!(v.len(), 6);
            assert!(v[0] > 65000 && v[1] > 65000 && v[2] > 65000, "white stays near white: {:?}", v);
        }
        PixelData::Rgb8(_) => panic!("expected 16-bit samples"),
    }
}

#[test]
fn black_point_compensation_flag_bits() {
    assert_eq!(transform_flag_bits(true), 0x2000);
    assert_eq!(transform_flag_bits(false), 0);
}
