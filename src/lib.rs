//! Point-to-point binary framing between a host and a small device: the wire
//! format and its codec, a resumable streaming parser, and a fixed-capacity
//! byte ring buffer.
pub mod buffers;
pub mod commands;
pub mod fifo;
pub mod handler;
pub mod parser;
pub mod stream_laws;
