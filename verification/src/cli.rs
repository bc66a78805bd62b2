//! The plain shapes of the conversion tool's command line. The surrounding
//! binary parses its arguments into these and hands them over; nothing here
//! performs any parsing itself.

use vstd::prelude::*;

verus! {

/// A compatible console: decides the byte order of the save file and the
/// text encoding of the label word list.
#[derive(Debug, Clone, Copy, PartialEq, Eq, Structural)]
pub enum Platform {
    /// Nintendo Wii: big-endian, Shift JIS labels.
    Wii,
    /// NVIDIA Shield TV: the Wii build under emulation, so the same layout.
    ShieldTv,
    /// Nintendo Switch: little-endian, UTF-8 labels.
    Switch,
}

impl Default for Platform {
    fn default() -> (r: Self)
        ensures
            r == Platform::Wii,
    {
        Platform::Wii
    }
}

impl Platform {
    /// The byte order of this console's save files.
    pub fn endian(self) -> (r: crate::endian::Endian)
        ensures
            r == (match self {
                Platform::Switch => crate::endian::Endian::Little,
                _ => crate::endian::Endian::Big,
            }),
    {
        match self {
            Platform::Switch => crate::endian::Endian::Little,
            _ => crate::endian::Endian::Big,
        }
    }
}

/// The settled command line of the conversion tool.
pub struct Args {
    /// The input save or structured file path.
    pub input: String,
    /// The output save or structured file path.
    pub output: Option<String>,
    /// The source or target console.
    pub platform: Platform,
    /// Parse the save file even if the header is invalid.
    pub force: bool,
    /// The label word-list path.
    pub labels: Option<String>,
    /// Reject unresolved labels instead of silently re-hashing them.
    pub strict: bool,
}

} // verus!
