//! Authenticated CAN messaging (LeiA) and the key distribution that
//! bootstraps it, written as a protocol core without I/O: every function
//! takes plain values and returns the frames to transmit and the sponge
//! computations it needs, so that the host performs them and hands the
//! results back.

pub mod attestation;
pub mod bytes;
pub mod codec;
pub mod connection;
pub mod event;
pub mod frame;
pub mod keys;
pub mod laws;
pub mod leia;
pub mod mac;
pub mod server;
pub mod server_model;
pub mod model;
pub mod store;
pub mod vulcan;

pub use attestation::build_key_distribution_sequence;
pub use attestation::key_distribution_ad;
pub use attestation::key_distribution_challenge;
pub use attestation::key_distribution_plaintext;
pub use attestation::CAN_ID_ATTEST_RECV;
pub use attestation::CAN_ID_ATTEST_SEND;
pub use codec::build_eid;
pub use codec::parse_eid;
pub use codec::LeiACmd;
pub use codec::CAN_EFF_FLAG;
pub use codec::CAN_EFF_MASK;
pub use connection::leia_auth_fail_response;
pub use connection::session_key_gen;
pub use connection::session_key_request;
pub use connection::update_counters;
pub use connection::LeiAConnection;
pub use connection::LEIA_COUNT_MAX;
pub use connection::LEIA_EPOCH_MAX;
pub use event::Event;
pub use event::Fatal;
pub use event::Progress;
pub use frame::Frame;
pub use keys::SancusKey;
pub use keys::SANCUS_KEY_SIZE;
pub use leia::LeiAContext;
pub use mac::mac_associated_data;
pub use mac::mac_create;
pub use mac::mac_request;
pub use mac::MacRequest;
pub use mac::CAN_PAYLOAD_SIZE;
pub use server::AttestationServer;
pub use server::Distribution;
pub use server::KeyRequest;
pub use server_model::AttestationEvent;
pub use server_model::Task;
pub use store::ExpectedStore;
pub use store::LeiAStore;
pub use store::VulCANStore;
pub use vulcan::leia;
pub use vulcan::VulCANContext;
