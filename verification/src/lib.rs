//! Platform primitives for a desktop host: the language of the user
//! interface, the text on the clipboard and the installed font files.
//!
//! The library holds the rules and leaves every call into the operating
//! system to its caller, who hands over what the system answered as plain
//! values.

pub mod clipboard;
pub mod font;
pub mod locale;
pub mod order;
pub mod path;
pub mod platform;
pub mod roots;
pub mod scan;
pub mod snapshot;
pub mod sort;
pub mod text;
pub mod utf16;
