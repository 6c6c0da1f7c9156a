//! Release-aware Python source lowering support for the Monty interpreter:
//! checked source edits, manifest capability indexes, the bounded
//! transpilation cache, release selection, static capability extraction and
//! discovery report assembly.

pub mod text;
pub mod edit;
pub mod extract;
pub mod ordered;
pub mod manifest;
pub mod lowering;
pub mod transpiler;
pub mod lines;
pub mod discovery;
pub mod promotion;
pub mod generated_run;
pub mod line_reader;
pub mod facts;
pub mod scanner;
pub mod coverage;
pub mod release;
pub mod capability_scan;
pub mod dispatch;
pub mod capability_graph;
pub mod archive;
pub mod download;
pub mod wire;
pub mod behavior;
pub mod source_text;
pub mod protocols;
pub mod match_lower;
