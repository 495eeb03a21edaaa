//! MapCSS style processing for Organic Maps: the verified core.

pub mod text;
pub mod compat;
pub mod model;
pub mod canonical;
pub mod wire;
pub mod ieee;
pub mod decode;
pub mod seqs;
pub mod palette;
pub mod pack;
pub mod unpack;
pub mod prio;
pub mod condition;
pub mod declaration;
pub mod merge;
pub mod textdump;
pub mod roundtrip;
pub mod repack;
pub mod family;
pub mod lines;
pub mod priorities;
pub mod mapping;
pub mod tokens;
pub mod dump;
pub mod expr;
pub mod visibility;
pub mod variables;
