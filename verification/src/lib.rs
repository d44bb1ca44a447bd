//! Verified core of aniflow: contracts, validation, planning, and resolution.

pub mod acceptance;
pub mod authored;
pub mod cancellation;
pub mod command;
pub mod canonical;
pub mod contract;
pub mod documents;
pub mod error;
pub mod execution;
pub mod facade;
pub mod frames;
pub mod frontier;
pub mod identity;
pub mod invocation;
pub mod json;
pub mod order;
pub mod outputs;
pub mod pipeline;
pub mod plan;
pub mod plan_v3;
pub mod planning;
pub mod provider;
pub mod provider_runtime;
pub mod segmentation;
pub mod sensitive;
pub mod supervision;
pub mod registry;
pub mod run_steps;
pub mod run_v3;
pub mod text;
pub mod versioning;
