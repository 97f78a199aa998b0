//! Float Protocols: a protocol translation bridge for dead zone communication.
//!
//! The library holds the wire formats, queues, stores and decision rules of the
//! gateway. Time is always a parameter, in milliseconds, unless a function says
//! that it reads the clock.

pub mod asts_protobuf;
pub mod batcher;
pub mod bitemporal;
pub mod cache;
pub mod cadence_translation;
pub mod channel;
pub mod clock_reconciliation;
pub mod compress;
pub mod digest;
pub mod double;
pub mod dynamic_buffer;
pub mod gateway;
pub mod gnss;
pub mod hardware;
pub mod hfvhf;
pub mod inmarsat_c;
pub mod iridium_sbd;
pub mod lifetime_safe;
pub mod lora;
pub mod metrics;
pub mod nidd;
pub mod otel_bundle;
pub mod otel_compact_span;
pub mod otel_converter;
pub mod otel_reconciler;
pub mod payload;
pub mod protocol;
pub mod provisioning;
pub mod reliability;
pub mod rotation;
pub mod samsara;
pub mod scan;
pub mod sensor;
pub mod seqs;
pub mod sharding;
pub mod snapshot;
pub mod storage;
pub mod table;
pub mod text;
pub mod translator;
pub mod transmission_batcher;
pub mod vsat;
pub mod wire;

pub use asts_protobuf::{ASTSProtobufMessage, ZeroCopyTranslator};
pub use batcher::AsyncBatcher;
pub use bitemporal::{BiTemporalQuery, BiTemporalStore, QueryTime, SpreadStats};
pub use cache::AsyncCache;
pub use cadence_translation::{CadenceRule, CadenceTranslator, MessageCadence, TranslationAction};
pub use clock_reconciliation::{ClockOffset, ClockReconciler, NetworkTimeSource};
pub use dynamic_buffer::{BufferError, DynamicBuffer, DynamicBufferPool};
pub use gateway::Gateway;
pub use hfvhf::{HFVHFMessage, ModulationType};
pub use inmarsat_c::InmarsatCMessage;
pub use iridium_sbd::IridiumSBDMessage;
pub use lifetime_safe::{HybridTranslator, SafeTranslationResult, TranslationArena};
pub use metrics::Metrics;
pub use protocol::{Message, Priority, Protocol};
pub use reliability::{CircuitBreaker, RetryPolicy};
pub use samsara::SamsaraMessage;
pub use sharding::{ShardId, ShardManager};
pub use snapshot::{Snapshot, SnapshotManager};
pub use translator::{translate_iridium_to_asts_sync, BufferPool, Translator};
pub use vsat::VSATMessage;
