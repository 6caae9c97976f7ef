//! A registry over a colon-delimited search path: parsing into entries that
//! are kept once each, substring search, listings, and the decisions of the
//! session that rewrites the path.
pub mod command;
pub mod finder;
pub mod session;
pub mod split;
pub mod text;
