//! An interactive engine for hierarchical, typed parameter documents.
//!
//! A document is a tree of [`node::ParamNode`] values: scalars at the
//! leaves, ordered lists and keyed structs at the branches.  The crate
//! provides the data model, the textual form of every scalar, row
//! projection with name filtering, label-assisted key lookup, and the
//! navigation and editing state machines that an interactive host drives
//! one input event at a time.

pub mod node;
pub mod text;
pub mod hash;
pub mod input;
pub mod corpus;
pub mod rows;
pub mod filter;
pub mod edit;
pub mod tree;
pub mod confirm;
pub mod engine;
pub mod util;
pub mod explorer;
