//! Generates a Makefile for a C or C++ project from the files found under its
//! source directories.
//!
//! A [`walker::Walker`] decides which directories a traversal enters and
//! collects the files it meets. A [`lang::cpp::CppMaker`] sorts those files
//! into headers and compilation units, derives one object file per unit and
//! renders the variables and rules of the Makefile.

pub mod artifact;
pub mod classify;
pub mod error;
pub mod lang;
pub mod maker;
pub mod render;
pub mod text;
pub mod tree;
pub mod walker;
