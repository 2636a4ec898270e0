//! Verified decision logic of the zoom-framing timeline and of the UI element
//! hit chain: which segment is active, which edit a timeline instant falls in,
//! which cursor samples a segment aims at, how far the sample cache reaches,
//! and how detected element rectangles are clipped.
//!
//! Instants are carried as time keys: integers that order exactly as the
//! instants they stand for, so every decision here is made on integers.

pub mod clusters;
pub mod crop;
pub mod cursor_track;
pub mod geometry;
pub mod hit_chain;
pub mod order;
pub mod samples;
pub mod schedule;
pub mod time_map;
