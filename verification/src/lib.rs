//! The discrete core of a planar particle simulation.
//!
//! The crate holds the parts of a particle engine whose behaviour is exact:
//! the uniform spatial partition that finds interaction candidates, the
//! bookkeeping that decides how many particles enter per time slice, and the
//! pixel buffer on which particles are outlined. Positions enter as whole
//! length units; the continuous physics that moves the particles lives with
//! the caller.

pub mod config;
pub mod grid;
pub mod raster;
pub mod spawn;
