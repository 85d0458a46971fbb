use vstd::prelude::*;

pub mod cli;
pub mod config;
pub mod env;
pub mod eval;
pub mod json;
pub mod log;
pub mod map;
pub mod number;
pub mod parsing;
pub mod request;
pub mod runner;
pub mod space;
pub mod text;
pub mod wire;

pub use space::Lapse;
