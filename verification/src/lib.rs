//! Integer geometry, validation and graph logic behind photometric seam
//! correction of independently generated image tiles.

pub mod config;
pub mod seams;
pub mod layout;
pub mod grid;
pub mod graph;
pub mod report;
pub mod boundary;
pub mod sampling;
pub mod text;
pub mod png_format;
pub mod png_codec;
pub mod raw_format;
pub mod cross;
