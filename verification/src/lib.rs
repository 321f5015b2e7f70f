//! On-demand activation of development servers: host routing, request
//! parsing, command preparation, the service registry and the runner's
//! decisions, with their contracts.
#![allow(unused_imports)]

pub mod text;
pub mod command;
pub mod daemon;
pub mod ipc;
pub mod listener;
pub mod state;
pub mod runner;
pub mod cli;
