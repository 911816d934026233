//! An educational multi-dialect pseudo-language runtime.
//!
//! The crate interprets source text in one of three shallow, line-at-a-time
//! dialects (a BASIC-like, a Pascal-like and a Prolog-like language) against a
//! shared variable store, drives a 2-D turtle-graphics state machine, and can
//! suspend execution to request interactive input and resume with the
//! supplied value.

pub mod basic;
pub mod check;
pub mod laws;
pub mod pascal;
pub mod prolog;
pub mod session;
pub mod text;
pub mod turtle;
pub mod vars;
