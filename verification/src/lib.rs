use vstd::prelude::*;

pub mod text;
pub mod strmap;
pub mod debug;
pub mod errors;
pub mod models;
pub mod tools;
pub mod config;
pub mod argparser;
pub mod storage;
pub mod oauth;
pub mod editor;
pub mod entities;
pub mod reeknote;
pub mod out;
pub mod rnsync;
pub mod gnsync;
pub mod edam;
pub mod cli;
pub mod persistence;

verus! {

/// The version of reeknote.
pub const VERSION: &'static str = "3.0.24";

} // verus!
