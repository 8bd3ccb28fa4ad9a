//! Core of a compact language-model trainer: configuration, corpus packing,
//! chat rendering and checkpoint layout.

pub mod accelerate;
pub mod batch;
pub mod chat;
pub mod checkpoint;
pub mod completion;
pub mod config;
pub mod conversation;
pub mod corpus;
pub mod counting;
pub mod data;
pub mod dataset;
pub mod decode;
pub mod device;
pub mod digits;
pub mod expert;
pub mod feed;
pub mod fitting;
pub mod flow;
pub mod fourier;
pub mod hadamard;
pub mod hyena;
pub mod kan;
pub mod master;
pub mod memory;
pub mod metal;
pub mod names;
pub mod partials;
pub mod random;
pub mod run;
pub mod session;
pub mod shared;
pub mod spline;
pub mod ternary;
pub mod text;
pub mod tokenizer;
