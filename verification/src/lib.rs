//! A plan-level generator of visitor boilerplate.
//!
//! Given a description of a composite type's shape and a per-type behavior
//! configuration, this library computes declarative "codegen plans": the
//! per-field dispatch routine for one type (`drive`), the per-type visit
//! behaviors of one visitor type (`visit`), and the trait family of a
//! named capability group (`group`). A separate front end turns surface
//! syntax into the configuration model, and a separate back end renders
//! the plans into declarations; neither is part of this crate.
//!
//! The `exec` module gives the dispatch protocol its meaning: a registry
//! of type shapes and per-type behaviors determines, for any value, the
//! exact sequence of hook invocations a generated visitor performs, and
//! the traversal laws (field order, short-circuit propagation, enter/exit
//! pairing, opacity) are proved there. The `layered` module does the same
//! for stacks of wrapper visitors and proves that layering is
//! transparent, and the `dynamic` module adapts the protocol to an
//! event-driven, type-erased visitor interface.

pub mod drive;
pub mod dynamic;
pub mod exec;
pub mod group;
pub mod layered;
pub mod model;
pub mod names;
pub mod visit;
