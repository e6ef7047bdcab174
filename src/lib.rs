//! Batch machinery for converting colors between RGB and L\*a\*b\*.
//!
//! The conversion formulas work on floating-point channels and are supplied by
//! the caller as chunk engines and lane stages. This crate holds, with proofs,
//! the parts that decide which value goes where:
//!
//! * `batch`: the driver that splits a batch of any length into chunks of
//!   eight, pads the last chunk, runs one engine on every chunk, and keeps the
//!   output in input order; and the element-wise driver it must agree with.
//! * `lanes`: the channel-major layout that lets one stage work on one channel
//!   of eight colors at once, and the per-lane select that replaces branches.
//! * `layout`: flat byte buffers of pixels (RGB, RGBA, ARGB, BGR, BGRA, ABGR)
//!   read as RGB triples, and triples written back as RGB bytes.
pub mod batch;
pub mod lanes;
pub mod layout;
