//! One logical float and one logical integer type, each backed per value by one of
//! several numeric representations, with the dispatch rules between them.

pub mod backend;
pub mod bigint;
pub mod float;
pub mod hardware;
pub mod integer;
pub mod text;
