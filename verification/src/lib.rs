//! Row storage and key comparison for hash aggregation.
//!
//! A group-by keeps one row per group: the key columns, one null bit per key,
//! and the aggregation state, laid out one after another in a fixed number of
//! bytes. This crate holds those rows and compares incoming keys with them, a
//! batch at a time.
//!
//! - `byte_order`: how an integer of some width lies in memory;
//! - `row_value`: the types that can be read from and stored in a row;
//! - `layout`: where in a row each column, its null bit and the aggregation
//!   state lie;
//! - `row_container`: the container of rows, and the arena for strings;
//! - `arena`: what the arena hands out;
//! - `lanes`: lane-wise equality of packed integers;
//! - `batch_compare`: moving the rows whose key differs to the front;
//! - `laws`: what holds across several operations;
//! - `value_laws`: what the bytes of a row mean as integers;
//! - `layout_laws`: where a fresh container puts things;
//! - `container_laws`: what each operation on a container changes;
//! - `batch_laws`: what a comparison reports of the integers that rows hold.
pub mod arena;
pub mod batch_compare;
pub mod batch_laws;
pub mod byte_order;
pub mod container_laws;
pub mod lanes;
pub mod laws;
pub mod layout;
pub mod layout_laws;
pub mod row_container;
pub mod row_value;
pub mod value_laws;
