//! A chess engine on bitboards: the tables of attacks, the position and its
//! hash, the generator of legal moves, the search, and the line protocol;
//! each with its contract, and with the laws that hold between them.

pub mod accepted;
pub mod bits;
pub mod common;
pub mod cover;
pub mod engine;
pub mod generation;
pub mod geometry;
pub mod king_safety;
pub mod leapers;
pub mod legal;
pub mod lines;
pub mod magic;
pub mod move_encoding;
pub mod move_generation;
pub mod notation;
pub mod passing;
pub mod perft;
pub mod pinning;
pub mod position;
pub mod precalculator;
pub mod replay;
pub mod safety;
pub mod score;
pub mod sight;
pub mod tables;
pub mod text;
pub mod uci;
