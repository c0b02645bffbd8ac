use vstd::prelude::*;

pub mod text;
pub mod order;
pub mod toml;
pub mod slug;
pub mod paths;
pub mod provider;
pub mod json;
pub mod account;
pub mod proxy;
pub mod workspace;
pub mod usage;
pub mod claims;
pub mod connection;
pub mod summary;
pub mod switch;
pub mod exchange;
pub mod dashboard;
pub mod sharing;

verus! {
} // verus!
