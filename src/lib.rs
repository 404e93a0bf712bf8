//! Export of a lipid frame: the projection of its four load-bearing columns
//! into CSV bytes, and the error taxonomy shared by the file and delivery paths.
pub mod error;
pub mod frame;
pub mod csv;
