//! Core of the IM service: configuration, the sliding window of load
//! samples each endpoint keeps, the dispatcher's registry of candidate
//! endpoints, and the decisions that route discovery notifications.

pub mod config;
pub mod window;
pub mod dispatcher;
pub mod discovery;
pub mod model;
pub mod cli;

