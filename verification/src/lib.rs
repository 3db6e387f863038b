//! Identity, authorization, ownership and retrieval rules of a shared memory
//! server, with their behaviour stated as contracts and proved.
//!
//! - [`text`]: trimming, splitting, decimal and hexadecimal notation.
//! - [`actor`]: who triggered an operation and under which key they own rows.
//! - [`authz`]: what an authentication tier may do.
//! - [`admission`]: the admission-chain skip header.
//! - [`ownership`]: which owned rows a caller may see, and what a write stamps.
//! - [`float32`]: binary32 numbers by their bit pattern.
//! - [`reranker`]: the prompt of a relevance judge and the reading of its reply.
//! - [`reset`]: the plan of a data reset.
//! - [`watch`]: the steps of the foreground watcher.

pub mod actor;
pub mod admission;
pub mod authz;
pub mod float32;
pub mod ownership;
pub mod reranker;
pub mod reset;
pub mod text;
pub mod watch;
