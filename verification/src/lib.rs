//! Verified core of a connection pool that bridges one editor to many
//! downstream language servers.

pub mod cancel_metrics;
pub mod command_origin_registry;
pub mod command_origins;
pub mod command_route;
pub mod connection_action;
pub mod connection_handle;
pub mod connection_key;
pub mod connection_ref;
pub mod connection_state;
pub mod connections;
pub mod crash_recovery;
pub mod document_place;
pub mod document_tracker;
pub mod document_tracking;
pub mod dynamic_capability_registry;
pub mod error;
pub mod host_contents;
pub mod host_documents;
pub mod key_set;
pub mod liveness_timeout;
pub mod opening;
pub mod outside;
pub mod pending_reopen;
pub mod pool;
pub mod pool_state;
pub mod region;
pub mod seqs;
pub mod server_capabilities;
pub mod settings;
pub mod shutdown_timeout;
pub mod table;
pub mod text;
pub mod text_table;
pub mod upstream;
pub mod virtual_uri;
pub mod workspace_folders;
