use vstd::prelude::*;

pub mod pixel;
pub mod yuv;
pub mod frame;
pub mod gradient;
pub mod action;
pub mod renderer;
pub mod batch;
pub mod render;
pub mod region;
pub mod palette;
pub mod config;
pub mod text;

verus! {

} // verus!
