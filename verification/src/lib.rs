pub mod strs;
pub mod token;
pub mod position;
pub mod ast;
pub mod scope;
pub mod scanner;
pub mod parser;
pub mod errors;
pub mod cfg;
pub mod cfg_plugin;
pub mod export;
pub mod complexity;
pub mod branch_cov;
pub mod project;
pub mod visitor;
pub mod kernel;
pub mod span;
pub mod span_end;
