pub mod color_correction;
pub mod curves;
pub mod lightness;
pub mod pipeline;
