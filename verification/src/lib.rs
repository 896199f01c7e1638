pub mod agent;
pub mod build_info;
pub mod codec;
pub mod codex;
pub mod codex_auth;
pub mod compaction;
pub mod config;
pub mod context;
pub mod delegate;
pub mod encoding;
pub mod entry;
pub mod gate;
pub mod goal;
pub mod harness;
pub mod image;
pub mod import_jsonl;
pub mod json;
pub mod message;
pub mod order;
pub mod pairs;
pub mod path;
pub mod same;
pub mod sandbox;
pub mod table;
pub mod telemetry;
pub mod text;
pub mod turn;
