//! turbo-test core: the verified logic of a native JavaScript test runner — the command
//! line and the run's outcome handling (sharding, retries, summaries), test discovery and
//! config scanning, module resolution rules and the module registry, mock hoisting and the
//! ES module to CommonJS lowering, the package bundle plan, coverage bookkeeping with
//! source-map remapping and lcov/threshold reporting, glob matching, and the module-graph
//! affected-test selection.

pub mod assoc;
pub mod cli;
pub mod covdata;
pub mod bundler;
pub mod config;
pub mod coverage;
pub mod covmap;
pub mod decimal;
pub mod dom;
pub mod esm_cjs;
pub mod glob;
pub mod graph;
pub mod launcher;
pub mod lcov;
pub mod loader;
pub mod meta;
pub mod mocks;
pub mod registry;
pub mod modules;
pub mod order;
pub mod outcome;
pub mod napi;
pub mod report;
pub mod sourcemap;
pub mod text;
pub mod transform;
