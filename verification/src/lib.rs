//! Label rendering and raster encoding for Brother P-Touch printers.
pub mod devices;
pub mod error;
pub mod protocol;
pub mod raster;
pub mod session;
pub mod bitmap;
pub mod compose;
pub mod text;
pub mod labels;
pub mod picture;
pub mod editor;
pub mod laws;
pub mod layout_laws;
