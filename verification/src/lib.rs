//! Bit-packed sets over finite symbol domains.
//!
//! A domain is a fixed, ordered sequence of up to 128 symbols; each symbol
//! owns the bit whose index equals its position in that order.  A set of
//! symbols is stored as a single unsigned integer whose width is one of
//! 8, 16, 32, 64 or 128 bits, and every operation is a handful of integer
//! instructions.  The modules below provide the bit-level groundwork, the
//! backing-word abstraction, the domain interface, the set type itself with
//! its algebra and iterator, the ordered-list codec, and textual rendering.

pub mod bits;
pub mod codec;
pub mod domain;
pub mod domains;
pub mod example;
pub mod iter;
pub mod laws;
pub mod render;
pub mod repr;
pub mod set;
