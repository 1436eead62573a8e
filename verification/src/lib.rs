//! A conformance-test harness core: given the texts of test files and a store
//! of named support snippets, it reads each file's metadata block, resolves
//! the snippets the file needs — loading each backing file at most once per
//! run — assembles a runnable program in a fixed order, hands it to an
//! execution backend, and tallies pass, fail and skip counts whose totals
//! always balance. Reading directories and files, running the backend and
//! printing live outside this crate; the decisions live here.

pub mod assemble;
pub mod cache;
pub mod metadata;
pub mod outcome;
pub mod pipeline;
pub mod reporter;
pub mod yaml;
