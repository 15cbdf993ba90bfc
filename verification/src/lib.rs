use vstd::prelude::*;

pub mod app;
pub mod clash;
pub mod constants;
pub mod controller;
pub mod json;
pub mod log;
pub mod order;
pub mod platform;
pub mod text;

verus! {
} // verus!
