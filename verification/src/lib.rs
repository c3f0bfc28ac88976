pub mod text;
pub mod taint;
pub mod urlencoding;
pub mod router;
pub mod types;
pub mod orchestrator;
pub mod crawler;
pub mod search;
pub mod academic;
pub mod categorizer;
pub mod research;
pub mod config;
pub mod extractor;
pub mod graph;
pub mod memory;
pub mod commands;
pub mod tools;
pub mod llm;
