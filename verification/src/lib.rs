//! avcscope: triaging SELinux AVC denials, read-only.
//!
//! Audit lines go in; what comes out is a list of de-duplicated denials, a
//! diagnosis of each, and what the terminal interface shows of them. Reading
//! files, running query commands and drawing are left to the program around this
//! library: here it is said what to read next, what a key does and what is drawn
//! where.
pub mod args;
pub mod avc;
pub mod group_laws;
pub mod hint_laws;
pub mod hints;
pub mod key_laws;
pub mod laws;
pub mod layout;
pub mod number;
pub mod order;
pub mod ranking;
pub mod record_laws;
pub mod screen;
pub mod screen_laws;
pub mod selinux;
pub mod source_laws;
pub mod state;
pub mod text;
pub mod text_laws;
pub mod time;
