//! The FlexColor edit history embedded in FFF files (tag 0xC519) and
//! FlexColor settings presets, both Apple plist documents.

pub mod history;
pub mod model;
pub mod plist;

pub use history::{EditHistory, ImageCorrection, ImageSetting, parse_settings_xml};
pub use model::{DateTime, color_model_name, film_curve_name, film_type_name};
