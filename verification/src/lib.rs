//! Reading and writing values in the bin_prot wire format: a compact
//! binary encoding of numbers, strings, options, sequences, tuples, maps,
//! records and variants, and a fingerprint of the shape of a type by which
//! two peers check that they mean the same type.
//!
//! A type is written by `BinProtWrite`, read by `BinProtRead`, sized by
//! `BinProtSize` and described by `BinProtShape`. The encoding of each
//! built-in type is stated as a function from the value to its bytes, what
//! a byte string decodes to as a function from the bytes, and that the
//! second undoes the first is proved of each of them.
pub mod async_read_write;
pub mod builtin_shapes;
pub mod context;
pub mod derive;
pub mod digest;
pub mod endian;
pub mod error;
pub mod floats;
pub mod framing;
pub mod integer;
pub mod maps;
pub mod names;
pub mod polymorphic;
pub mod primitives;
pub mod sequence;
pub mod shape;
pub mod source;
pub mod strings;
pub mod traits;
pub mod tuples;

pub use crate::async_read_write::AsyncBuffer;
pub use crate::context::ShapeContext;
pub use crate::digest::Digestible;
pub use crate::error::{Error, IoErrorKind};
pub use crate::floats::{read_float32s, write_float32s, Float32};
pub use crate::framing::{binprot_read_with_size, binprot_write_with_size, WithLen};
pub use crate::maps::{MapKey, Table};
pub use crate::primitives::{Float64, Nat0};
pub use crate::shape::{Shape, Uuid};
pub use crate::source::Source;
pub use crate::strings::{BufferWithLen, Bytes};
pub use crate::traits::{
    BinProtLaws, BinProtRead, BinProtShape, BinProtSize, BinProtWrite, Val,
};
