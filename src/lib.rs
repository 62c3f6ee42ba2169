//! Search-and-selection engine of an interactive program launcher: a list of
//! candidate programs, a query typed one key at a time, the programs whose
//! names fuzzily match the query, and a cyclic selection among them.

pub mod program;
pub mod session;
pub mod state;
pub mod text;
