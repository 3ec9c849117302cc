use vstd::prelude::*;

pub mod timing_harness;
pub mod binary_baselines;
pub mod cache_latency_model;
pub mod complexity_crossover;
pub mod decimal_format;
pub mod declared_graph;
pub mod process_topology;
pub mod probe;
pub mod scaling;
pub mod substrate_model;
pub mod transition_gradient;
