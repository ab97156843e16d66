//! The three file formats.

pub mod bin_format;
pub mod csv_format;
pub mod txt_format;
