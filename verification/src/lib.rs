//! Decoder for a binary "eventlog" container.
//!
//! An eventlog holds two sections: a type dictionary describing the kinds of
//! events that may occur (including how each event's payload is framed), and a
//! chronological stream of timestamped event records. The dictionary must be
//! decoded first, because the payload framing of every event record depends on
//! the size policy declared for its type.
//!
//! The grammar (all integers big-endian):
//!
//! ```text
//! Eventlog    := Header Body trailing-bytes
//! Header      := "hdrb" TypeRecord* "hdre"
//! TypeRecord  := "etb\0" id:u16 size:i16 desc:u32-len-prefixed extra:u32-len-prefixed "ete\0"
//! Body        := "datb" EventRecord* 0xFFFF
//! EventRecord := ty:u16 time_ns:u64 payload
//!   payload   := `width` bytes            if ty's size policy is Constant(width)
//!              | u16-len-prefixed bytes   if ty's size policy is Variable
//! ```
//!
//! A size field that is non-negative (as a signed 16-bit value) declares a
//! constant payload width; a negative one declares variable, length-prefixed
//! payloads. Trailing bytes after the body's closing marker are ignored.

pub mod grammar;
pub mod laws;
pub mod parser;

pub use grammar::DecodeError;
pub use grammar::EventSize;
pub use parser::parse_eventlog;
pub use parser::Event;
pub use parser::EventType;
