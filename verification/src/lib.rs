//! Edge and corner detection on single-channel intensity grids, in integer
//! arithmetic throughout.
//!
//! The edge pipeline estimates gradients with a pair of 3x3 operators, thins
//! the magnitude field by non-maximum suppression and classifies it with a
//! single threshold. The corner pipeline accumulates the second-moment matrix
//! of central differences over a 3x3 window and scores it either with the
//! Harris response or with the smaller of its two eigenvalues.
//!
//! Every stage is a function from grids and scalar parameters to a freshly
//! allocated grid. Real-valued parameters are exact fractions.

pub mod corners;
pub mod edges;
pub mod error;
pub mod fraction;
pub mod gradient;
pub mod grid;
pub mod kernel;
pub mod pixel_ops;
pub mod response;
