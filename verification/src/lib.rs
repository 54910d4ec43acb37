//! Fit bookkeeping for generalized linear mixed models: model shapes, solver
//! routing, random-effect layouts, rank-deficiency salvage and the assembly of
//! a reported fit out of what a numerical kernel returns.
//!
//! Every quantity that a kernel computes is a [`scalar::Scalar`]: the library
//! names no machine float, and its contracts say which scalar operations are
//! applied to which entries, in which order.
pub mod consts;
pub mod diagnostics;
pub mod draw;
pub mod exact;
pub mod fit;
pub mod fitted;
pub mod glmm;
pub mod groupings;
pub mod inference;
pub mod layout;
pub mod lmm;
pub mod matrix;
pub mod model;
pub mod moments;
pub mod options;
pub mod perm;
pub mod ranef;
pub mod rank;
pub mod reading;
pub mod routing;
pub mod scalar;
pub mod shape;
pub mod sizing;
pub mod units;
pub mod varcorr;
pub mod view;
pub mod workspace;
