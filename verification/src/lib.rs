//! llamesh: a mesh of nodes that serve language models with llama.cpp.
//!
//! This library holds the rules by which a node runs: what a valid configuration is, how peers are
//! discovered and told about each other, when a failing peer is left alone, how builds of llama.cpp
//! follow each other, what launch arguments and startup logs say, and what is counted.

pub mod build_manager;
pub mod circuit_breaker;
pub mod clock;
pub mod cluster;
pub mod command_output;
pub mod config;
pub mod connection;
pub mod cookbook;
pub mod discovery;
pub mod errors;
pub mod gossip;
pub mod health;
pub mod instance;
pub mod memory_sampler;
pub mod metrics;
pub mod mock_server;
pub mod net;
pub mod paths;
pub mod prometheus;
pub mod server;
pub mod sort;
pub mod startup;
pub mod string_map;
pub mod text;
