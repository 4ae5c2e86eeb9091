//! Packaging of Cairo proof artifacts and decoding of Cairo program output.
//!
//! An artifact is one byte stream that carries a serialized proof, the
//! serialized public inputs and a serialized program-output record. The first
//! two sections are length-prefixed frames; the record is whatever follows.
//! The record itself is rebuilt from the flat array of decimal tokens that a
//! Cairo program prints as its output.

pub mod artifact;
pub mod byte_array;
pub mod decimal;
pub mod error;
pub mod frame;
pub mod output;
pub mod token;
pub mod word;

pub use crate::artifact::{read_artifact, write_artifact, Sections};
pub use crate::error::DecodeError;
pub use crate::frame::{read_frame, write_frame};
pub use crate::output::{DeserializableHyleOutput, Event, HyleOutput};
