//! Verified core of a paginated-document pipeline.
//!
//! The pipeline acquires a numbered sequence of remote page images grouped in
//! chapters, normalizes their resolution, and assembles them into one paginated
//! PDF document. This crate holds the verified logic of the three stages:
//! planning the fetches (resumable, cancellable), normalizing the images
//! (modal-resolution vote and scale law), and assembling the document
//! (numeric ordering recovered from filenames, one page per image).
//! Network and filesystem work stands outside, handing plain values in and out.

pub mod assemble;
pub mod digits;
pub mod ident;
pub mod name;
pub mod normalize;
pub mod pdf;
pub mod plan;
pub mod scale;
pub mod vote;
