//! Code intelligence for JS/TS codebases.
use vstd::prelude::*;

pub mod api;
pub mod context;
pub mod db;
pub mod deps;
pub mod enrich;
pub mod eval;
pub mod graph;
pub mod hash;
pub mod index;
pub mod json;
pub mod lists;
pub mod map;
pub mod mcp;
pub mod order;
pub mod output;
pub mod parser;
pub mod queries;
pub mod query;
pub mod scorer;
pub mod setup;
pub mod symbol;
pub mod syntax;
pub mod text;
pub mod types;

verus! {

}
