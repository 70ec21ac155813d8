//! Mutation testing for TypeScript: finding the operator sites that a mutant
//! changes, judging what a test run says of each mutant, and reporting the
//! results.

pub mod copying;
pub mod discovery;
pub mod document;
pub mod finder;
pub mod mutant;
pub mod operator;
pub mod options;
pub mod order;
pub mod plan;
pub mod report;
pub mod runner;
pub mod syntax;
pub mod text;

pub use finder::{mutants, try_mutants};
pub use mutant::{apply, Mutant, ParseFailure};
pub use operator::Operator;
pub use runner::{killed_count, MutantResult, MutantStatus, Runner, RunnerConfig};
