//! Extraction of dictionary-style content from archived HTML pages, and the
//! decisions of the ingestion run that stores it.

pub mod config;
pub mod db;
pub mod export;
pub mod extractor;
pub mod items;
pub mod normalization;
pub mod ordered;
pub mod patterns;
pub mod pipeline;
pub mod relations;
pub mod release;
pub mod run;
pub mod scanner;
pub mod scoring;
pub mod sections;
pub mod store;
pub mod text;
pub mod verify;

pub use config::Config;
pub use pipeline::RunMetrics;
