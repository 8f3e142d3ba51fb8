//! Edit scripts between two ordered sequences.
//!
//! The script is built by a greedy anchor search: it is not a shortest edit
//! script. The anchor chosen at each step is the earliest start in the source,
//! then the longest block at that start, then the earliest place in the target.

pub mod anchor;
pub mod distance;
pub mod laws;
pub mod patch;

pub use anchor::search_subsequence;
pub use distance::edit_distance;
pub use patch::{Action, Patch};
