//! What holds of the library as a whole: parsing loses nothing, edits touch
//! only what they target and read back in the IR, refused edits leave the
//! document alone, the IR's row ids address their lines, settings keep no
//! secret values, and a module's requirements count exactly the plugins that
//! would do.
pub mod documents;
pub mod edits;
pub mod fields;
pub mod readback;
pub mod requirements;
pub mod settings;
