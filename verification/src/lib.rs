//! Reduction of `// ignore-debug` directives across a test corpus.
//!
//! For each candidate test file, an external test runner acts as an oracle:
//! the directive is removed or replaced by an equivalent compile-flags
//! directive, the oracle decides whether the modified test still passes, and
//! the file either keeps the winning transform or is restored byte for byte.
//! This crate holds the verified core: the pure directive transforms, the
//! per-file reduction state machine, file-list selection, and report
//! rendering. All process and filesystem work stays outside, feeding the
//! core plain values.

pub mod config;
pub mod directive;
pub mod discover;
pub mod errors;
pub mod oracle;
pub mod reduce;
pub mod report;
