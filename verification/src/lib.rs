//! An in-memory company directory driven by a line-oriented command
//! interpreter, together with a handful of small, independently usable
//! utilities (integer statistics, a pig-latin transducer, substring search,
//! and a number-guessing helper).
//!
//! The directory core parses free-text commands (`Add <name> to <dept>`,
//! `List employees in <dept>`, `List all employees`) and maintains a
//! department-to-employees mapping whose queries return alphabetically
//! sorted results.

pub mod arith;
pub mod articles;
pub mod directory;
pub mod grep;
pub mod guess;
pub mod order;
pub mod parser;
pub mod pig_latin;
pub mod restaurant;
pub mod stats;
pub mod text;

pub use arith::add;
pub use arith::generate_nth_fibonacci;
pub use arith::panic_add;
pub use arith::subtract;
