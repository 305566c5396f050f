// A programmable DNS forwarder: queries run through a pipeline of plugins declared in a
// configuration. The pipeline for one query is a step machine (`pipeline::Run`) whose
// caller performs the outside work it asks for: upstream exchanges, sleeps and lookups
// in the host's resolver.
pub mod message;
pub mod names;
pub mod net;
pub mod providers;
pub mod context;
pub mod leaves;
pub mod forward;
pub mod statistics;
pub mod cache;
pub mod registry;
pub mod pipeline;
pub mod server;
pub mod laws;
