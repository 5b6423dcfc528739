//! Ray reconstruction: the denoising and upscaling that every frame goes through.

pub mod modes;
pub mod ngx;
pub mod renderer;
