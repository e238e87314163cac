//! A small model of paged physical memory: a zero-initialised byte store,
//! fixed-size pages that are windows over it, and fixed-size processes that
//! are copied into and out of a page by a bump allocator.
//!
//! Beside it stand a first-in first-out queue, a block-based file table, and
//! the bookkeeping of a waiting room with a few seats.
pub mod dump;
pub mod file;
pub mod laws;
pub mod page;
pub mod process;
pub mod queue;
pub mod ram;
pub mod seating;
