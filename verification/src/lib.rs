//! A schema-driven search-query compiler over a JSON document store.
//!
//! A schema describes how each logical field of a document table may be
//! queried; a request is an ordered list of key/value parameters. The
//! compiler turns the two into one parameterized database query (a
//! JSON-path filter, SQL-level full-text predicates, sort and pagination)
//! with every request value either parsed into a sanitized scalar, checked
//! against a safe lexical form, or carried as a positional binding. The
//! transformer applies the schema's per-field converters to the returned
//! documents. The laws module states and proves what the compiler
//! guarantees: determinism, placeholder balance, injection safety, the
//! operator fold, the control-parameter defaults, and idempotence of the
//! transformer.
pub mod err;
pub mod laws;
pub mod query;
pub mod schema;
pub mod text;
pub mod transform;
