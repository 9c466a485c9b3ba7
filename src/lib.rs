//! Conversion engine of the OSD font tool.
//!
//! - `convert_set`: the grammar of the arguments that name a font
//!   representation (`prefix:payload`), and the check of a conversion between
//!   two of them.
//! - `tile_set`: tiles at both resolutions, and the symbols extracted from
//!   them by a symbol specification.
//! - `tile_grid`: tiles laid out as one grid image per resolution.
//! - `bin_set`: tiles stored as fixed-size records in bin files.
//! - `file`: errors of file operations, tagged with the action and the path.
pub mod bin_set;
pub mod convert_set;
pub mod file;
pub mod tile_grid;
pub mod tile_set;
