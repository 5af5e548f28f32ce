//! Authority fabric: peers that talk over capabilities, mediated by a host.
//!
//! An endpoint is one end of a conversation, and holding it is the authority
//! to use it. A peer can make endpoints, call through them and hand them to
//! other peers; the host routes every message and is the only judge of who
//! holds what. What is handed over stays in escrow until its transfer commits
//! or is undone, so an endpoint never has two holders, and none is lost while
//! its holder lives. Memory regions differ, and do so on purpose: they have
//! at most one writer and any number of readers, each derived explicitly.
//!
//! Everything here is a plain value that is fed what arrived and says what to
//! do. Sockets, processes, threads and clocks belong to the program around it.
#![allow(unused_imports)]

pub mod bench;
pub mod bytes;
pub mod call_laws;
pub mod data_pipe;
pub mod death_laws;
pub mod delivery_laws;
pub mod drill;
pub mod fabric_error;
pub mod frame;
pub mod frame_laws;
pub mod host;
pub mod host_laws;
pub mod id;
pub mod limits;
pub mod memstream;
pub mod native;
pub mod peer;
pub mod peer_laws;
pub mod peer_model;
pub mod proto;
pub mod queue;
pub mod region_laws;
pub mod router;
pub mod router_inv;
pub mod router_laws;
pub mod router_model;
pub mod routing_laws;
pub mod script;
pub mod service;
pub mod serving_laws;
pub mod shared;
pub mod table;
pub mod text;
pub mod transfer_laws;
pub mod wire_laws;

pub use fabric_error::{Cause, FabError};
pub use frame::FrameError;
pub use id::EpId;
pub use limits::Limits;
pub use peer::{CallResult, Endpoint, Inbound, PeerAccounting, Runtime};
pub use queue::Backlog;
pub use router::{Accounting as RouterAccounting, HostDelivery, PeerId, Poison, Router};
