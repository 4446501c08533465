//! Import reconciliation and geometry re-projection for notebook exports:
//! color decoding, book/page correlation, page ordering, canvas planning,
//! and placement of strokes and images on one continuous canvas.

pub mod hex;
pub mod records;
pub mod reconcile;
pub mod canvas;
pub mod geometry;
pub mod manifest;
