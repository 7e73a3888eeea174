//! What the calls of the library give back, stated on raw bytes, raw tables and raw
//! buffers, and how the results of two calls relate.
//!
//! - [`file`] goes from the bytes of a file to the tables of a model, [`tensors`] reads
//!   what describes a tensor, and [`acceptance`] says which models can be run.
//! - [`model`] goes from the tables to what a backend is handed, [`runs`] says which
//!   operators run and in which order, and [`whole`] goes from the tables to the output.
//! - [`calls`] goes from a call of an operator to what is performed; [`conv`],
//!   [`depthwise`], [`dense`], [`pool`], [`softmax`] and [`elementwise`] say what the
//!   reference backend writes then, when it succeeds, and what it accepts.
//!   [`operators`] puts both together, from a call to the output buffer.
//! - [`shapes`], [`windows`], [`sums`], [`arithmetic`], [`results`] and [`domain`] are
//!   about what these rest on.

pub mod acceptance;
pub mod arithmetic;
pub mod calls;
pub mod conv;
pub mod dense;
pub mod depthwise;
pub mod domain;
pub mod elementwise;
pub mod file;
pub mod model;
pub mod operators;
pub mod pool;
pub mod results;
pub mod runs;
pub mod shapes;
pub mod softmax;
pub mod sums;
pub mod tensors;
pub mod whole;
pub mod windows;
