//! Compiler front end for a small language that declares how the values of
//! two enumerations correspond, and the conversion tables derived from it.
//!
//! A specification such as `Name<A, B> { A1 == B1, A2 => B2, _ <= B3 }` names
//! a converter, an internal and an external enumeration, and the rules that
//! relate their values. [`type_parser`] and [`rules_parser`] read it from a
//! sequence of tokens, [`mirror`] turns it round, and [`table`] derives the
//! conversion table of a direction. [`conversion`] puts these together, and
//! [`stream`] takes the tokens from a `proc_macro2` stream. [`converter`]
//! holds the traits that a generated converter implements.

pub mod conversion;
pub mod converter;
pub mod error;
pub mod mirror;
pub mod model;
pub mod rules_parser;
pub mod stream;
pub mod table;
pub mod token;
pub mod type_parser;

pub use converter::{EnumConverter, PartialEnumConverter};
