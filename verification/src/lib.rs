//! Client-side core of a line-framed command protocol spoken by networked
//! fabrication devices: command catalog, frame encoding, response
//! delimitation and the session sequencing rules, all free of I/O.

pub mod catalog;
pub mod decode;
pub mod frame;
pub mod laws;
pub mod reader;
pub mod session;
pub mod text;
