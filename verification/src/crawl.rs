//! Crawling: which files are indexed, and what becomes of the chunks of earlier crawls.
pub mod types;
pub mod labels;
pub mod plan;
pub mod index;
pub mod outcome;
pub mod writer;
