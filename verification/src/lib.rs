//! A hash-join engine over in-memory columnar tables, and the logical plan
//! that describes relational queries over them.
//!
//! The join engine encodes the key cells of every row as a byte string
//! (`key`), hashes one side of the join into a table that is partitioned by
//! hash (`hash_table`, `join_tuples`), probes it with the other side on
//! several threads (`parallel`) and gathers the paired rows into the joined
//! table (`hash_join`). What a join owes is said in `join_spec`; what holds
//! of every join is proved in `join_laws` and `table_laws`.
//!
//! The plan is a tree of relational operations (`logical_plan`) over
//! expressions (`expr`); every node that changes the columns derives its
//! schema when it is built. `plan_fmt` renders plans as text and as graphs.

pub mod datatypes;
pub mod expr;
pub mod frame;
pub mod hash_join;
pub mod hash_table;
pub mod join_laws;
pub mod join_spec;
pub mod join_tuples;
pub mod key;
pub mod logical_plan;
pub mod parallel;
pub mod plan_fmt;
pub mod series;
pub mod table_laws;
