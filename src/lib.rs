//! Graph construction and analysis over scored relationship records that link
//! two taxonomies, plus a novelty-driven sampler over a taxonomy-relationship graph.
pub mod algo;
pub mod analysis;
pub mod builder;
pub mod dates;
pub mod degree;
pub mod distribution;
pub mod impact;
pub mod model;
pub mod novelty;
pub mod order;
pub mod ranking;
pub mod sampler;
pub mod strength;
pub mod subgraph;
pub mod taxonomy;
