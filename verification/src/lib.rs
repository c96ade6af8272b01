//! Palette-driven recoloring: the verified rules behind the `paletteer`
//! command line (palettes, output names, size reports, palette files and
//! job planning).

pub mod format;
pub mod jobs;
pub mod naming;
pub mod normalize;
pub mod palette_file;
pub mod select;
pub mod size;
pub mod text;
pub mod theme;

pub use format::{output_quality, OutputFormat, DEFAULT_QUALITY};
pub use jobs::{jobs, skipped_inputs, Candidate, Job, JobError, NamingOptions};
pub use naming::{
    already_recolored, has_glob_characters, image_extension, output_file_name,
    output_name_for_stem, recolored_stem, supported, temp_file_name,
};
pub use normalize::normalized;
pub use palette_file::{
    hex_color, palette_from_document, parse_colors, parse_custom_palette, CustomPalette, TomlEntry,
    TomlItem, TomlValue,
};
pub use select::{select_palette, SelectedPalette};
pub use size::human_size;
pub use theme::{accent_colors, built_in_colors, neutral_colors, Theme};
