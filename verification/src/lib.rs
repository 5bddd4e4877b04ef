//! A small toolbox of verified data structures and algorithms: sorting and
//! searching routines, a matrix container, a simple graph, and a virtual
//! file system layer that translates between root-relative and absolute
//! paths by purely lexical rules.

pub mod alg;
pub mod ds;
pub mod vfs;
