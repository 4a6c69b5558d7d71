//! A batching classification pipeline: decodes positional text records into
//! short messages, groups them into fixed-size chunks, submits each chunk to a
//! remote template-matching service, aligns the service's answers with the
//! chunk positionally, and splits the outcome into a per-template statistics
//! table and a residual list of unmatched messages.

pub mod batch;
pub mod classify;
pub mod csvfmt;
pub mod driver;
pub mod message;
pub mod stats;

pub use batch::chunk_count;
pub use batch::chunks;
pub use batch::concat_all;
pub use classify::align_results;
pub use classify::build_request;
pub use classify::resolve_message_kind;
pub use classify::ClassificationError;
pub use classify::RawMatch;
pub use csvfmt::fmt_u128;
pub use csvfmt::fmt_usize;
pub use csvfmt::lemma_stats_round_trip;
pub use csvfmt::parse_stats_csv;
pub use driver::lemma_message_conservation;
pub use driver::HttpOutcome;
pub use driver::ResidualRow;
pub use driver::Run;
pub use driver::RunState;
pub use message::decode_row;
pub use message::make_messages_vec;
pub use message::DecodeError;
pub use message::SMKind;
pub use message::ShortMessage;
pub use stats::lemma_record_independent;
pub use stats::lemma_record_twice;
pub use stats::StatsTable;
pub use stats::TemplateStat;
