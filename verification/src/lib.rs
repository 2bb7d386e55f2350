pub mod bounded_io;
pub mod cli;
pub mod context;
pub mod diagnostic;
pub mod file_types;
pub mod ignore_directives;
pub mod json;
pub mod laws;
pub mod messages;
pub mod order;
pub mod parsers;
pub mod paths;
pub mod pattern;
pub mod report;
pub mod rules;
pub mod scanner;
pub mod text;

pub use diagnostic::{FileLintResult, LintResult, Severity, Violation, ViolationKind};
