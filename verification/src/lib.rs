//! The GECOS field of a passwd entry: full name, room, work phone, home
//! phone and further entries, kept as one comma-separated text.
//!
//! [`GecosSanitizedString`] is a text without the characters that the
//! passwd line format reserves. [`Gecos`] is the record; it is written with
//! [`Gecos::to_gecos_string`] and read with [`Gecos::from_gecos_string`].
//!
//! The contracts are stated over the model in [`model`]; what holds between
//! writing and reading is proved in [`laws`].

pub mod error;
pub mod gecos;
pub mod laws;
pub mod model;
pub mod sanitized;
pub mod segments;

pub use error::GecosError;
pub use gecos::Gecos;
pub use model::GecosView;
pub use sanitized::GecosSanitizedString;
