//! # verovio_rust
//!
//! Music engraving for a documented MusicXML subset, in the shape of
//! Verovio's toolkit: import and validate a score, engrave it in exact
//! staff-space units, and index its notes by onset and by id.

pub mod score;
pub mod text;
pub mod timemap;
pub mod xml;
pub mod engrave;
pub mod import;
pub mod layout;
pub mod smufl;
pub mod guarantees;

pub use engrave::{key_alteration, signature_positions, ElementKind};
pub use import::{parse_music_xml, ImportError};
pub use layout::{can_engrave, Engraving, Mark, Shape, Stroke};
pub use score::Score;
pub use timemap::{build_timemap, note_midi, TimemapEntry};
