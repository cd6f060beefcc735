//! Verified core of the Kairos tooling: the soak driver's statistics,
//! configuration and breach policy, and the web client's pure decision
//! logic (capability gating, grant composition, board projections,
//! encodings).

pub mod text;
pub mod glob;
pub mod api;
pub mod gating;
pub mod capabilities;
pub mod config;
pub mod stats;
pub mod report;
pub mod world;
pub mod rng;
pub mod breach_log;
pub mod prom;
pub mod board_data;
pub mod admin_api;
pub mod workforce;
pub mod board_rules;
pub mod repo_lens;
pub mod board_view;
pub mod board_create;
pub mod canonical;
pub mod editor;
pub mod board_list;
pub mod live;
pub mod encoding;
pub mod webauth;
pub mod activity;
pub mod item;
pub mod web_api;
pub mod token;
pub mod mcp;
