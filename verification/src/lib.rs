//! A benchmark harness for `codeowners validate`, `generate` and
//! `generate-and-validate`.
//!
//! It exists to make performance claims checkable: a fixed set of named cases is run
//! against a configurable corpus, and the times that were measured can be compared
//! across branches. The library makes the decisions, and proves them; files, git and
//! the clock are left to the program around it.

pub mod bench;
pub mod cache;
pub mod cases;
pub mod compare;
pub mod corpus;
pub mod measure;
pub mod order;
pub mod phases;
pub mod report;
pub mod run;
pub mod stats;
pub mod table;
pub mod text;
