//! Relay transports, the SMTP queue and key updates of a chat mail client.

pub mod text;
pub mod text_set;
pub mod order;
pub mod address;
pub mod error;
pub mod transport_store;
pub mod transport_load;
pub mod transport_laws;
pub mod transport;
pub mod queue;
pub mod reply;
pub mod smtp;
pub mod connect_job;
pub mod delivery;
pub mod send_job;
pub mod send_laws;
pub mod send_course;
pub mod mdn_queue;
pub mod mdn_job;
pub mod mdn_laws;
pub mod mdn_course;
pub mod send_round;
pub mod keyupdate;
pub mod keyupdate_job;
pub mod keyupdate_laws;
pub mod jsonrpc;
pub mod outcomes;
pub mod text_outcomes;
