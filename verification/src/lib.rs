//! Core engine of a syndicated-content broadcast pipeline: topic
//! fingerprinting, cluster buffering, cross-cycle topic registry,
//! durable retry queue, generation cache, audio assembly arithmetic,
//! and the state machines that drive clustering and episode production.
pub mod assembler;
pub mod buffer;
pub mod cluster;
pub mod config;
pub mod episode;
pub mod external;
pub mod fingerprint;
pub mod flush;
pub mod gateway;
pub mod ingest;
pub mod jsonx;
pub mod payload;
pub mod registry;
pub mod retry_queue;
pub mod review;
pub mod textproc;
pub mod trace;
pub mod tts_clean;
