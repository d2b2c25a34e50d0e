//! A verified core for an autonomous prediction-market trading agent:
//! the ledger that holds all trading state, the accountant that closes
//! each cycle against the bankroll, the Kelly sizer under layered risk
//! caps, the edge detector, the estimate parser and its cost budget,
//! the weather question grammar, the position manager's exit rules and
//! portfolio caps, trade execution against the ledger, and the cycle
//! controller's decisions. All money, prices and probabilities are
//! fixed-point micro-units; the process edges (HTTP, clock, disk)
//! stay outside and hand in plain values.

pub mod accounting;
pub mod clob;
pub mod config;
pub mod controller;
pub mod dashboard;
pub mod edge_detector;
pub mod estimator;
pub mod executor;
pub mod ledger;
pub mod money;
pub mod openclaw;
pub mod position_manager;
pub mod position_sizer;
pub mod scanner;
pub mod sidecar;
pub mod template;
pub mod textscan;
pub mod weather;
