//! Evaluation: how well files are found, with and without the index.
pub mod ab;
pub mod ab_report;
pub mod claude_client;
pub mod dataset;
pub mod e2e;
pub mod e2e_report;
pub mod history;
pub mod metrics;
pub mod names;
pub mod report;
pub mod session;
pub mod tools;
pub mod workspace;
