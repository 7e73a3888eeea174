//! INT8 inference for small neural networks.
//!
//! - [`types`], [`params`] and [`backend`] are the interface between model code and
//!   operator kernels.
//! - [`reference`] implements it: [`conv`], [`depthwise`], [`dense`], [`pool`],
//!   [`softmax`] and [`elementwise`] on top of [`shape`], [`quantize`] and
//!   [`single`]. [`stub`] implements it by refusing every operator.
//! - [`tflite`] reads the tables of a quantized model from the bytes of a file, and
//!   [`model`], [`emit`] and [`plan`] read the layers of [`layer`] from the tables;
//!   [`load`] does both. [`invoke`] and [`predict`] run them on a backend, and
//!   [`runs`] states what holds of every run.
//! - [`laws`] states what the calls of all these give back, on the bytes of a file, the
//!   tables of a model and the buffers of an operator themselves.

pub mod backend;
pub mod conv;
pub mod dense;
pub mod depthwise;
pub mod elementwise;
pub mod emit;
pub mod invoke;
pub mod layer;
pub mod laws;
pub mod load;
pub mod model;
pub mod params;
pub mod plan;
pub mod pool;
pub mod predict;
pub mod quantize;
pub mod reference;
pub mod runs;
pub mod shape;
pub mod single;
pub mod softmax;
pub mod stub;
pub mod tflite;
pub mod types;
