//! Verified core of the CTA manager: record codecs, configuration rules,
//! order-strategy parameters, report windows and alert scheduling.

pub mod codec;
pub mod keyed;
pub mod json;
pub mod manager_db;
pub mod float_bits;
pub mod text;
pub mod ordered;
pub mod model;
pub mod config;
pub mod market_rules;
pub mod order_config;
pub mod auth;
pub mod account_ipc;
pub mod bfusd_auto;
pub mod acquisition_cost;
pub mod ingest;
pub mod exchange_leverage;
pub mod nav;
pub mod execution_cost;
pub mod monitor;
pub mod position_archive;
