//! A zero-copy binary table format with optional fields.
//!
//! A buffer holds a root table located through a leading little-endian
//! offset.  Each table points backward at a vtable that maps field slots
//! to inline byte offsets (0 meaning "absent"); absent fields read as
//! their declared defaults.  Strings are length-prefixed and
//! NUL-terminated.  The builder grows the arena backward, so referenced
//! objects (strings, vtables) are created before the tables that point
//! at them; a verifier certifies untrusted buffers before any reader
//! trusts their offsets.

pub mod bytes;
pub mod layout;
pub mod builder;
pub mod reader;
pub mod checks;
pub mod collider;
pub mod laws;
