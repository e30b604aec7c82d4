pub mod text;
pub mod status;
pub mod util;
pub mod engine;
pub mod error;
pub mod parser;
pub mod matching;
pub mod reference;
pub mod code_intel;
pub mod skill;
pub mod json;
pub mod template_engine;
pub mod task;
pub mod config;
pub mod typed;
pub mod search;
pub mod vectors;
pub mod embed;
pub mod tools;
pub mod graph;
pub mod memory;
pub mod logs;
pub mod help;
pub mod validate;
pub mod sources;
pub mod code_scan;
pub mod records;
pub mod scheduler;
pub mod transport;
pub mod page;
pub mod yaml;
pub mod docs;
pub mod clock;
pub mod laws;
