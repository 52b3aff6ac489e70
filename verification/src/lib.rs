//! A verified core for organising and searching a tree of markdown notes.
//!
//! The library works on plain values: a snapshot of a directory tree, paths as
//! lists of segments, and keyboard events. Reading the disk, drawing on the
//! terminal and starting an editor are left to the program around it.

pub mod calendar;
pub mod cli;
pub mod editor;
pub mod interaction;
pub mod note;
pub mod pattern;
pub mod render;
pub mod search;
pub mod session;
pub mod snapshot;
pub mod text;
pub mod traversal;
