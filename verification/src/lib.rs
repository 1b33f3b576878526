//! Hitomezashi stitch patterns: seeded selector sequences, dashed-line
//! stepping, axis-aligned rasterization to drawing commands and to RGBA
//! pixel buffers, and a metadata codec that carries the generating
//! parameters in an exported image's textual records.

pub mod chunks;
pub mod dash;
pub mod export;
pub mod json;
pub mod params;
pub mod raster;
pub mod save;
pub mod selectors;
pub mod sweep;

pub use chunks::read_text_records;
pub use dash::DashSpan;
pub use dash::dash_spans;
pub use export::MetaError;
pub use export::RawImage;
pub use export::attach_metadata;
pub use export::export_png;
pub use export::recover_settings;
pub use json::decode_settings;
pub use json::encode_settings;
pub use params::RectSettings;
pub use raster::draw_pattern_to_image;
pub use raster::render_raster;
pub use save::SaveAction;
pub use save::SaveEvent;
pub use save::SaveFlow;
pub use save::save_flow_step;
pub use selectors::generate;
pub use sweep::Bounds;
pub use sweep::Segment;
pub use sweep::SweepLine;
pub use sweep::horizontal_grid_lines;
pub use sweep::horizontal_sweep;
pub use sweep::vertical_grid_lines;
pub use sweep::vertical_sweep;
