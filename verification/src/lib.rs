//! An index of a music library: the tree of its artists, albums and tracks,
//! each with the cover art that belongs to it.
//!
//! The library reads no disk. Its caller lists the directories and hands
//! over what it found, as a report in plain values (`music::disk`). From
//! that report `music::populate` builds the tree (`music::node`), and
//! `music::update_art` finds the art of each entry. What holds of every tree
//! so built is stated and proved in `music::laws`.

pub mod music;
