//! Encoding and decoding of the Marshal 4.8 binary object-graph format.
//!
//! # Values
//!
//! A graph lives in an [`RbContext`]: an arena of objects named by handles.
//! Scalars (nil, booleans, 32-bit integers, symbols) are held inline in an
//! [`RbAny`]; every other value is an [`RbRef`], an object of the arena, and
//! an `RbAny` holds a handle on it. Several positions may hold the same
//! handle, and an object may occur among its own descendants.
//!
//! # Codec
//!
//! [`from_reader`] decodes bytes into a graph and its root value, and
//! [`to_writer`] encodes a value of a graph. What the two compute is defined
//! mathematically in [`wire`] and [`emit`], and each function is proved to
//! compute exactly that. [`roundtrip`] proves that decoding gives back what
//! was encoded, [`sameness`] that the two are equal in the deep order,
//! [`tables`] that nothing is written in full twice, and [`varint`] that the
//! variable-length integers read back as written.
//!
//! # Comparison
//!
//! [`RbAny::deep_cmp`] orders two values, each of its own graph, by kind and
//! content; [`RbAny::deep_cmp_within`] orders two values of one graph, and
//! there lets the places of two objects decide where their contents have no
//! order. The order is defined in [`order`]; floats are ordered as the
//! numbers that their numerals denote, see [`decimal`].
//!
//! # What is taken on trust
//!
//! Ordered maps are `indexmap::IndexMap`s and big integers are normalised
//! and compared by `num-bigint`; the library states what it relies on of
//! these in the contracts of small wrappers in [`fields`], [`hash`],
//! [`bigint`], [`rank`] and [`symbol`], which are believed, not proved.
//!
//! # Floats
//!
//! A float is held as the numeral that the wire carries, checked against
//! the grammar of decimal floats; see [`float`]. Numerals are compared as
//! exact decimal numbers. Turning a numeral into a machine float is left to
//! the caller.

pub mod bigint;
pub mod compare;
pub mod consts;
pub mod decimal;
pub mod context;
pub mod deserialize;
pub mod emit;
pub mod error;
pub mod fields;
pub mod float;
pub mod framing;
pub mod hash;
pub mod leaves;
pub mod likeness;
pub mod lookup;
pub mod node;
pub mod object;
pub mod order;
pub mod ordered;
pub mod rank;
pub mod rb_type;
pub mod roundtrip;
pub mod sameness;
pub mod serialize;
pub mod symbol;
pub mod tables;
pub mod value;
pub mod varint;
pub mod wire;

pub use bigint::RbBigInt;
pub use compare::{RbCompare, RefPair};
pub use context::RbContext;
pub use deserialize::{bytes_to_string, from_reader, from_reader_counted, RbReader};
pub use error::{TResult, ThurgoodError};
pub use fields::RbFields;
pub use float::RbFloat;
pub use hash::RbHash;
pub use node::RbRef;
pub use object::{RbClass, RbObject, RbUserData};
pub use rank::Rank;
pub use rb_type::RbType;
pub use serialize::{to_writer, RbWriter};
pub use symbol::RbSymbol;
pub use value::{rc_get_ptr, RbAny, RefId};
pub use varint::{varint_decode, varint_encode};
