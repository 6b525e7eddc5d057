//! Reconciles a browser's `user.js` against an upstream template and keeps
//! the runtime `prefs.js` free of entries that the template already manages.

pub mod text;
pub mod pattern;
pub mod version;
pub mod merge;
pub mod prefs;
pub mod edit;
pub mod editor;
pub mod diff;
pub mod backup;
pub mod profile;
