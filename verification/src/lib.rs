//! A verified codec for the Named Binary Tag format: a self-describing,
//! recursively tagged binary tree of scalars, byte arrays, length-prefixed
//! text, homogeneous lists and key-named compounds, all framed big-endian.

pub mod datainput;
pub mod dataoutput;
pub mod error;
pub mod laws;
pub mod material;
pub mod model;
pub mod nbt;
pub mod stepsound;
