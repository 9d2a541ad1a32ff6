//! Verified core of an audio stem-separation pipeline.
//!
//! The library covers the parts of the pipeline that are pure sample
//! accounting: the canonical PCM representation exchanged between the
//! decoder and the separation model, the partition of that PCM into
//! overlapping inference windows and the reassembly of per-track PCM
//! from the window results, and the batching and timestamping rules
//! for re-encoding each track.  Opening containers, decoding and
//! encoding bitstreams, and running the model are done by external
//! engines outside this crate; the crate states and proves what must
//! hold of the bytes handed to and received from them.

pub mod audio;
pub mod decode;
pub mod encode;
pub mod error;
pub mod splitter;
