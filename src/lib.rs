//! Hexdump rendering: fixed-width text lines showing a byte buffer in
//! hexadecimal groups, a sanitized ASCII column and a running offset, followed
//! by one summary line that gives the total length.

pub mod dump;
pub mod laws;
pub mod line;
pub mod render;

pub use dump::{hexdump_iter, Hexdump};
pub use line::Line;
pub use render::sanitize_byte;
