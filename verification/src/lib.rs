//! Query-compilation core of a triple-store database.
//!
//! Facts are stored as entity-attribute-value triples under a validity
//! snapshot.  A query arrives as an ordered list of triple-pattern clauses;
//! the crate parses those clauses, compiles them into a tree of
//! relational-algebra operators (joins over indexed triple scans and small
//! inline relations), and normalizes the tree so that no internal
//! bookkeeping column leaks into the result schema.

pub mod attr;
pub mod data;
pub mod json;
pub mod keyword;
pub mod query;
pub mod relation;
pub mod seqs;
pub mod sort;
pub mod transact;
pub mod value;
