//! Tries that commit to database state: table schemas and table rows.

pub mod row_trie;
pub mod schema_trie;
