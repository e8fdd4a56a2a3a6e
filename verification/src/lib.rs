//! A small bundler for the `catrina` npm package: it gathers the library
//! modules that a project's JavaScript and CSS entry files import, and writes
//! one bundle of each kind into the deploy directory.
//!
//! Everything that decides what goes into a bundle is here, over plain
//! values: a file is its text, a path is a string.  Reading and writing files,
//! running commands and asking the user stand in the binary around it.
#![allow(unused_imports)]

pub mod text;
pub mod utils;
pub mod paths;
pub mod config;
pub mod import;
pub mod errors;
pub mod css;
pub mod js;
pub mod project;
pub mod stdlib;
pub mod wizard;
pub mod cli;

use vstd::prelude::*;

verus! {

} // verus!
