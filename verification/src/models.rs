//! The protocol's message types: the tick record with its tagged timestamp,
//! and the message envelope around it.

pub mod bid_ask_data;
pub mod bid_ask_tcp_model;
