//! Keyed scans over partitioned columnar tables, with a hierarchy of pruning
//! stages (file-level Elias–Fano sets, row-group and page statistics, Bloom
//! filters, a row filter), and the provenance queries built on top of them.

pub mod columnar;
pub mod ef_index;
pub mod keys;
pub mod queries;
pub mod row_filter;
pub mod scan;
pub mod schema;
pub mod swhid;
