//! A PBFT finality gadget.
pub mod authorities;
pub mod aux_schema;
pub mod completed;
pub mod config;
pub mod consensus_log;
pub mod decimal;
pub mod environment;
pub mod error;
pub mod fields;
pub mod finalize;
pub mod gossip;
pub mod ids;
pub mod import;
pub mod keys;
pub mod leader_info;
pub mod messages;
pub mod notification;
pub mod payload;
pub mod pending;
pub mod protocol_name;
pub mod scale;
pub mod target;
pub mod topics;
pub mod voter_set_state;
pub mod votes;
pub mod voters;
