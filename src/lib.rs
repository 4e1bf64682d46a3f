//! Interpretation of package-registry CDN access logs: user-agent
//! classification, platform decomposition, full-name splitting and the
//! mergeable per-day statistics table.
pub mod grammar;
pub mod platform;
pub mod user_agent;
pub mod stats;
pub mod request;
pub mod aggregate;
pub mod full_name_lengths;
pub mod clickhouse;
pub mod s3;
