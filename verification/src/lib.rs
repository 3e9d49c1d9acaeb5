//! The collision mesh of a level and the queries against it, the flight of
//! thrown objects through it, the order in which a rigged model is drawn,
//! and the settings that an overlay shows them by.
//!
//! All geometry lives on an integer grid, and all arithmetic on it is
//! exact: nothing here rounds but where it says so.

pub mod enhancements;
pub mod settings;
pub mod text;
