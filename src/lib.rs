//! A BGP looking glass: a frontend that aggregates queries across routing
//! daemons, and a proxy that exposes one daemon's control socket and a
//! traceroute tool over HTTP. This crate holds the logic of both.

pub mod text;
pub mod sorted;
pub mod route_text;
pub mod bgpmap;
pub mod bird;
pub mod access;
pub mod traceroute;
pub mod settings;
pub mod templates;
pub mod encoding;
pub mod handlers;
pub mod proxy;
pub mod summary_parser;
