//! A broker for short-lived client connections that each take one of a few
//! roles: an admin role, which one connection holds at a time, or a player
//! role, which has a fixed number of slots and a queue for those who find it
//! full. The broker admits, queues and promotes connections, cleans up after
//! those that leave, and says whom a message must reach. Its state is the
//! connection directory; every rule it keeps is stated on that directory and
//! proved.

pub mod admission;
pub mod broker;
pub mod config;
pub mod connection_operations;
pub mod directory;
pub mod disconnect;
pub mod error;
pub mod events;
pub mod handlers;
pub mod json;
pub mod laws;
pub mod models;
pub mod notices;
pub mod occupancy;
pub mod queue;
pub mod records;
pub mod responses;
pub mod router;
pub mod send;
pub mod seq_facts;
pub mod sweeper;
