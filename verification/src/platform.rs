//! The operating systems that the library knows, and what differs between
//! them.

use vstd::prelude::*;

verus! {

/// The operating system whose conventions apply.
#[derive(Clone, Copy, Debug, PartialEq, Eq, Structural)]
pub enum Platform {
    Windows,
    MacOs,
    Linux,
}

impl Platform {
    /// Whether `c` separates the components of a path: `/` everywhere, and
    /// `\` on Windows.
    pub open spec fn is_separator(self, c: char) -> bool {
        c == '/' || (self == Platform::Windows && c == '\\')
    }

    /// The separator that is written when two parts of a path are joined.
    pub open spec fn main_separator(self) -> char {
        if self == Platform::Windows {
            '\\'
        } else {
            '/'
        }
    }

    /// Whether a font scan descends into the subdirectories of its roots.
    pub open spec fn scans_subdirectories(self) -> bool {
        self == Platform::Linux
    }

    /// Whether the platform has a clipboard reader and a locale detector of
    /// its own.
    pub open spec fn has_native_backend(self) -> bool {
        self == Platform::Windows
    }

    /// Executable form of [`Platform::is_separator`].
    pub fn separates(self, c: char) -> (b: bool)
        ensures
            b == self.is_separator(c),
    {
        match self {
            Platform::Windows => c == '/' || c == '\\',
            _ => c == '/',
        }
    }

    /// Executable form of [`Platform::scans_subdirectories`].
    pub fn recurses(self) -> (b: bool)
        ensures
            b == self.scans_subdirectories(),
    {
        match self {
            Platform::Linux => true,
            _ => false,
        }
    }

    /// Executable form of [`Platform::has_native_backend`].
    pub fn is_native(self) -> (b: bool)
        ensures
            b == self.has_native_backend(),
    {
        match self {
            Platform::Windows => true,
            _ => false,
        }
    }
}

} // verus!
