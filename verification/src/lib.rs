//! Front end for a renderer scene-description language.
//!
//! The library turns a textual directive buffer into a typed scene value:
//! comment stripping, primitive literal recognizers, parameter sets, the five
//! pre-world option directives, and the recursive world-block grammar with
//! `AttributeBegin`/`AttributeEnd` scoping.

pub mod geometry;
pub mod grammar;
pub mod lit;
pub mod paramset;
pub mod parser;

pub use parser::{parse_scene, Error, Scene};
