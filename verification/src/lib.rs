//! Recovery of a string from its digest by exhaustive enumeration.
//!
//! Candidates of a fixed length over an alphabet are numbered by a positional
//! codec, so that the space can be cut into ranges of indices and handed to
//! workers without ever being built. Each worker decodes its indices, compares
//! digests, and stops as soon as the shared flag says that a match was found.

pub mod ascii;
pub mod codec;
pub mod digest;
mod flag;
pub mod hash_type;
pub mod partition;
pub mod search;
pub mod wordlist;
pub mod worker;
