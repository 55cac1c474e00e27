pub mod color;
pub mod config;
pub mod flexcolor;
pub mod sidecar;
pub mod summary;
pub mod tags;
pub mod text;
pub mod tiff;
pub mod xml_text;
pub mod sidecar_round_trip;
pub mod downscale;
pub mod thumbnail;
pub mod preview;
pub mod tag_text;
pub mod browse;
