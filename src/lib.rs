//! The interface-definition front end of a robotics middleware: it parses message
//! and service definition files, resolves the types they refer to into a graph,
//! and computes the two content hashes that peers compare before they exchange
//! data, the legacy MD5 digest of the definition text and the ROS 2 hash of a
//! canonical JSON type description.
//!
//! - [`parse`] reads type tokens, field lines and constant lines;
//!   [`msg`] reads whole message and service files.
//! - [`resolve`] checks references against the known types and builds the graph;
//!   [`ros2_builtin_interfaces`] holds the types every graph starts with.
//! - [`ros2_hashing`] lowers a message or service to its canonical description
//!   and hashes it; [`json`] writes that description as canonical JSON and
//!   [`catalog`] keeps the referenced descriptions ordered by name.
use vstd::prelude::*;

pub mod catalog;
pub mod digest;
pub mod json;
pub mod msg;
pub mod order;
pub mod parse;
pub mod resolve;
pub mod ros2_builtin_interfaces;
pub mod ros2_hashing;
pub mod text;
pub mod types;

pub use types::{
    ArrayType, ConstantInfo, Error, ErrorKind, FieldInfo, FieldType, MessageFile, Package,
    ParsedMessageFile, ParsedServiceFile, Ros2Hash, RosVersion, ServiceFile,
};

verus! {

} // verus!
