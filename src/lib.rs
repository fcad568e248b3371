//! A multi-pattern literal matcher: patterns are normalized, deduplicated and
//! written into a match file; a matcher loads that file and scans a haystack.
pub mod codec;
pub mod compiler;
pub mod config;
pub mod matcher;
pub mod modifiers;
pub mod normalize;
pub mod params;
pub mod patterns;
pub mod recall;
pub mod scan;
pub mod stats;
pub mod store;
pub mod text;
