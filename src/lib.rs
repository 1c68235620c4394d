pub mod digits;
pub mod fpx_ieee;
pub mod laws;
