//! A job-pipeline engine: jobs with dependencies run in dependency order, each
//! taking its dependencies' outputs as input. Outside work (shell commands,
//! HTTP requests, plugin calls) is described as a `Request` and done by a host
//! that the caller provides; plugins exchange strings through a small binary
//! framing.
pub mod codec;
pub mod error;
pub mod job;
pub mod job_type;
pub mod pipeline;
pub mod pipeline_tree;
pub mod plugin;
