//! Solray: a Solidity source code explorer for Foundry projects, as a
//! verified library over the data it reads from `forge build` artifacts.
use vstd::prelude::*;

pub mod strings;
pub mod ids;
pub mod call_tree;
pub mod text;
pub mod inheritance;
pub mod build_info;
pub mod order;
pub mod artifact_index;
pub mod inheritance_graph;
pub mod ast;
pub mod call_engine;
pub mod call_walk;
pub mod call_inherit;
pub mod call_graph;
pub mod scanners;
pub mod node;
pub mod resolver;
pub mod outputs;
pub mod call_paths;
pub mod function_source;
pub mod source_output;
pub mod external_functions;
pub mod call_path_inspect;
pub mod source_graph;
pub mod listing;
pub mod references;
pub mod modifiers;
pub mod storage;
pub mod interface_gen;
pub mod transfer_scan;
pub mod foundry_config;
pub mod resolution;

verus! {
} // verus!
