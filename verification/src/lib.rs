//! A supervisor for actors: a declared roster, and the decisions that drive
//! reality towards it.

pub mod text;
pub mod hex;
pub mod client;
pub mod release;
pub mod json;
pub mod graph;
pub mod datum;
pub mod roster;
pub mod reconcile;
pub mod reply;
pub mod wire;
pub mod control;
pub mod boot;
pub mod auth;
pub mod line;
pub mod session;
pub mod ops;
pub mod manifest;
pub mod bootstrap;
pub mod delegate;
pub mod collector;
pub mod render;
