//! Output formats.

use vstd::prelude::*;

verus! {

/// The encoding of an output image.
#[derive(Clone, Copy, Debug, PartialEq, Eq, Structural)]
pub enum OutputFormat {
    Png,
    Webp,
    Jpg,
}

/// The file extension an output of this format gets.
pub open spec fn extension_spec(format: OutputFormat) -> Seq<char> {
    match format {
        OutputFormat::Png => "png"@,
        OutputFormat::Webp => "webp"@,
        OutputFormat::Jpg => "jpg"@,
    }
}

/// The quality used when none is given.
pub const DEFAULT_QUALITY: u8 = 80;

/// The message of the error for a quality given with a lossless format.
pub open spec fn quality_message() -> Seq<char> {
    "--quality is only valid with --format webp or jpg"@
}

impl OutputFormat {
    /// The file extension of outputs in this format.
    pub fn extension(self) -> (extension: &'static str)
        ensures
            extension@ == extension_spec(self),
    {
        match self {
            OutputFormat::Png => "png",
            OutputFormat::Webp => "webp",
            OutputFormat::Jpg => "jpg",
        }
    }

    /// Whether the format takes a quality setting (only the lossy ones do).
    pub fn supports_quality(self) -> (supported: bool)
        ensures
            supported == !(self is Png),
    {
        !matches!(self, OutputFormat::Png)
    }
}

/// The quality an encoding runs with: the one given, or the default; a
/// quality given with a format that takes none is an error.
pub fn output_quality(format: OutputFormat, quality: Option<u8>) -> (result: Result<u8, String>)
    ensures
        quality is Some && format is Png ==> (result matches Err(message) && message@
            == quality_message()),
        !(format is Png) ==> (quality matches Some(q) ==> result == Ok::<u8, String>(q)),
        quality is None ==> result == Ok::<u8, String>(DEFAULT_QUALITY),
{
    match quality {
        Some(q) => {
            if format.supports_quality() {
                Ok(q)
            } else {
                Err(String::from_str("--quality is only valid with --format webp or jpg"))
            }
        },
        None => Ok(DEFAULT_QUALITY),
    }
}

} // verus!
