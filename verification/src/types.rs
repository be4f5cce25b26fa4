//! Bit-addressed buffers and the conversions between bits and integers.

pub mod bit_spec;
pub mod bit_utils;
pub mod bit_stream;
pub mod byte_object;
pub mod byte_stream;
