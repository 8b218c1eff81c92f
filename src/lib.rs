//! The schema and wire-protocol core of a distributed object network engine:
//! the bounded datagram codec, the schema language's lexer, its type system,
//! and the compiled schema model with its fingerprint.

pub mod datagram;
pub mod dcfile;
pub mod dclexer;
pub mod dctype;
pub mod endianness;
pub mod globals;
pub mod hashgen;
pub mod protocol;
