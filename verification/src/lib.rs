//! A codec for Quoridor game records: move notation to and from QF code, and
//! the conversion of saved game pages to codes.

pub mod base64;
pub mod bits;
pub mod board;
pub mod convert_html_to_qf;
pub mod laws;
pub mod notation;
pub mod qf_decode;
pub mod qf_encode;
