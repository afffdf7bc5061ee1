//! Conversion of a tree of infrared-spectrum source files (`.asp`) into
//! tables, in an output tree that mirrors the tree they were found in.
//!
//! The library decides; it touches no file. A run goes through it in this
//! order:
//!
//! 1. The entries of a directory walk are partitioned and filtered
//!    ([`scanner`]). The directories are taken relative to the root of the
//!    scan and placed under the output root ([`mirror`]); the source files
//!    are picked and named relative to the root of the scan ([`pipeline`]).
//! 2. The text of a source file is split into lines ([`lines`]). Each line
//!    is taken for a number by the caller, who hands back one field per
//!    line: the number ([`number`]), or nothing where the line is none.
//!    From the fields come the header, or the failure to read it, and the
//!    transmittance values ([`parser`]).
//! 3. A spectrum ([`spectrum`]) gives the rows of its table and the path at
//!    which the table is written ([`export`]).
//! 4. What became of each file is recorded, in the order of the files
//!    ([`report`]).
//!
//! Paths are text with `/` between segments ([`path`]).

pub mod error;
pub mod export;
pub mod lines;
pub mod mirror;
pub mod number;
pub mod parser;
pub mod path;
pub mod pipeline;
pub mod report;
pub mod scanner;
pub mod spectrum;
pub mod text;
