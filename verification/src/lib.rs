//! Verified generation of L-system branch structures between scene anchors.
//!
//! A string-rewriting grammar produces a symbol sequence, a stack-based turtle
//! turns the sequence into line segments and leaf markers, and an ordered list
//! of anchors decides between which pairs of points such a tree is grown.
//!
//! - [`grammar`]: production rules and the derivation of a sequence. The
//!   rewriting itself is done by the `lsystem` crate, behind [`engine`].
//! - [`turtle`]: the interpreter of a sequence, on the exact positions of
//!   [`lattice`], whose distances are the exact numbers of [`surd`].
//! - [`stroke`]: the width of a stroke, by its distance from the start.
//! - [`anchors`], [`spline`] and [`scene`]: the topics of a scene, their
//!   order, and what is to be grown when the scene changes.
//!
//! The library holds no floating-point number: it counts steps and eighth
//! turns, and leaves their size in the scene to the host.

pub mod anchors;
pub mod engine;
pub mod grammar;
pub mod lattice;
pub mod scene;
pub mod spline;
pub mod stroke;
pub mod surd;
pub mod turtle;
