//! Server-side rules of a Monte Carlo retirement planner: request checks,
//! access policy, job bookkeeping, session and credential handling, and the
//! flattening of nested plan specifications into rows.
pub mod accounts;
pub mod amounts;
pub mod analysis_api;
pub mod archives;
pub mod auth;
pub mod billing;
pub mod cloning;
pub mod config;
pub mod contact;
pub mod copy_plan;
pub mod db;
pub mod distributions;
pub mod effects;
pub mod error;
pub mod events;
pub mod expressions;
pub mod idmap;
pub mod jobs;
pub mod onboarding;
pub mod ordering;
pub mod parameters;
pub mod profiles;
pub mod restore;
pub mod rows;
pub mod runs;
pub mod scenarios;
pub mod specs;
pub mod text;
pub mod triggers;
pub mod what_if;
