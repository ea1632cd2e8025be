//! Decode a fixed-layout binary telemetry stream and flatten it into
//! delimited-text header and row lines.
//!
//! The stream begins with a 64-bit little-endian interface version tag,
//! followed by back-to-back fixed-size records. A schema — a tree of named
//! leaf and composite fields — drives both the byte-exact decoding of each
//! record and the generation of flat column names and row values, so that
//! header and rows always align one-to-one.
pub mod bytes;
pub mod decode;
pub mod driver;
pub mod errors;
pub mod flatten;
pub mod gz;
pub mod schema;
pub mod value;
