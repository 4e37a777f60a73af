use vstd::prelude::*;

pub mod address;
pub mod config;
pub mod connections;
pub mod connections_linux;
pub mod errors;
pub mod json;
pub mod server_list;
pub mod session;
pub mod startup_checks;
pub mod text;
pub mod validation;
pub mod validations;

verus! {
} // verus!
