use vstd::prelude::*;

pub mod backend;
pub mod compression;
pub mod config;
pub mod directstorage;
pub mod folder;
pub mod paths;
pub mod text;

verus! {
}
