//! The verified core of the Essential server: the statements its storage
//! sends and how their results are read back, how contracts are ordered and
//! addressed, how state keys advance, how subscription streams page through
//! data, how state read programs are read from bytecode, how the state read
//! VM runs a program, accounts for gas and steers control flow, how state
//! reads are recorded, and how blocks are assembled and build up state.
pub mod json;
pub mod blob;
pub mod values;
pub mod streams;
pub mod keys;
pub mod vm;
pub mod block;
pub mod outcome;
pub mod query;
pub mod sql;
pub mod solution;
pub mod contract;
pub mod decode;
pub mod transition;
pub mod content;
pub mod program;
