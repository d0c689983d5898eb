//! The core of a lyric-recall quiz: the player is shown a line of a song and
//! types the line that follows; the guess is graded by how close it comes.
//!
//! - `align`: a greedy insert/delete alignment of two character sequences.
//! - `truncate`: the search over trailing truncations of a guess.
//! - `scoring`: from a distance to points, or to the end of the round.
//! - `corpus`, `lyrics`: songs, their lines, and questions about them.
//! - `sampler`: random questions and distractors for multiple choice.
//! - `choice`: reading a multiple-choice selection.
//! - `highlight`: classes for showing a guess against its answer.
//! - `game`: the game as a state machine over the lines a player enters.
//! - `lifelines`: the lifelines and their inventory.
//! - `text`: characters and case folding.

pub mod align;
pub mod choice;
pub mod corpus;
pub mod game;
pub mod highlight;
pub mod lifelines;
pub mod lyrics;
pub mod sampler;
pub mod scoring;
pub mod text;
pub mod truncate;
