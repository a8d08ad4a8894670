//! Entry points into parsers and helpers that sit behind the library's
//! larger components, for fuzzing and testing them on their own.

pub mod base64;
pub mod ssh;
