//! Verified core of the ChiselStrike server: routing tables, request path
//! handling, authorization policies, CRUD query-string parsing, SQL query
//! planning helpers and metadata migrations.

pub mod text;
pub mod error;
pub mod prefix_map;
pub mod collection_utils;
pub mod types;
pub mod pattern;
pub mod policies;
pub mod api;
pub mod http;
pub mod expr;
pub mod json;
pub mod filter;
pub mod insert;
pub mod rows;
pub mod schema;
pub mod rpc;
pub mod query;
pub mod crud;
pub mod apply;
pub mod auth;
pub mod health;
pub mod policy;
pub mod migrate;
pub mod typeinfo;
pub mod endpoint;
pub mod laws;
pub mod plan;
