//! The logic of a portfolio tracker.
//!
//! - `worksheet_*` and `fx`: the rebalancing worksheet, from what is recorded to
//!   the lines it is prefilled with.
//! - `woob*`, `backends`, `transfers` and `nordigen`: bringing in what banks know.
//! - `portfolios`, `valuations` and `portfolio_targets`: groups of accounts, what
//!   they are worth, and how far they are from their targets.
//! - The other modules are what these rest on: decimals, texts, moments, walks
//!   through a graph.

pub mod activities;
pub mod amounts;
pub mod backend_laws;
pub mod backends;
pub mod collect;
pub mod decimal;
pub mod entries;
pub mod errors;
pub mod fx;
pub mod fx_laws;
pub mod ids;
pub mod json;
pub mod listing;
pub mod nordigen;
pub mod portfolio_targets;
pub mod portfolios;
pub mod text;
pub mod text_laws;
pub mod time;
pub mod transfers;
pub mod valuation_laws;
pub mod valuations;
pub mod walks;
pub mod woob;
pub mod woob_import;
pub mod worksheet_calculator;
pub mod worksheet_cash_laws;
pub mod worksheet_generation;
pub mod worksheet_laws;
pub mod worksheet_limit_laws;
pub mod worksheet_model;
pub mod worksheet_record_laws;
pub mod worksheet_request_laws;
pub mod worksheet_service;
pub mod worksheet_split_laws;
