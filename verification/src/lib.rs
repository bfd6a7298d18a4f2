//! Decision core of a daemon that manages coding agents running in terminals.

pub mod adapter;
pub mod api;
pub mod auth;
pub mod cli;
pub mod clock;
pub mod codec;
pub mod config;
pub mod digest;
pub mod entropy;
pub mod events;
pub mod fake_agent;
pub mod gateway;
pub mod hook;
pub mod json;
pub mod local;
pub mod num;
pub mod order;
pub mod paths;
pub mod quote;
pub mod runtime;
pub mod startup;
pub mod status;
pub mod text;
