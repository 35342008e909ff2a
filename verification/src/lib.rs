//! Lyrics for the song a media player plays: the Genius page address of a
//! song, the lyrics extracted from that page and cleaned up line by line,
//! and the decisions of the interfaces that follow the song as it plays.
use vstd::prelude::*;

pub mod chars;
pub mod dashes;
pub mod geniusgetter;
pub mod lines;
pub mod musicfinder;
pub mod user_interface;
pub mod utils;
