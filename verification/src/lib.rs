//! A bridge between hardware module sources and a tabular form of their
//! top-level wiring: the connectivity model, the wire registry, width
//! inference and the text renderers, with their contracts.
pub mod bits;
pub mod calculator;
pub mod collector;
pub mod data;
pub mod decimal;
pub mod error;
pub mod inst;
pub mod module;
pub mod parameter;
pub mod parse;
pub mod pattern;
pub mod port;
pub mod reader;
pub mod reconcile;
pub mod solve_func;
pub mod text;
pub mod update;
pub mod width;
pub mod wire;
pub mod writer;
