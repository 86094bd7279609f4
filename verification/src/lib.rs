//! Compass: the logic of an embedded vector and full-text search engine.
//!
//! A collection holds chunks of documents. Writes go to a log in object storage
//! ([`lsm`]) that compaction folds into segments ([`manifest`], [`segment`]);
//! every serving node applies the log to a copy of its own ([`loaded`],
//! [`replay`], [`refresh`]) and answers searches from that ([`search`],
//! [`filter`], [`temporal`]). Collections can be split into partitions by a
//! metadata field ([`partitions`], [`routing`]).
//!
//! The library decides and computes; it performs no input or output except on
//! the tables of a database that it is handed ([`relation_store`]). Vectors and
//! scores are held as bit patterns, and numbers in metadata as [`number::Number`].
//! What the library promises across functions is stated by the proof functions
//! whose names begin with `law_`.
pub mod api;
pub mod assoc;
pub mod bucket;
pub mod clock;
pub mod cold;
pub mod compaction_laws;
pub mod create;
pub mod duplicate;
pub mod embed;
pub mod errors;
pub mod facets;
pub mod filter;
pub mod flow;
pub mod id_laws;
pub mod id_map;
pub mod ids;
pub mod index;
pub mod ingest;
pub mod json;
pub mod le;
pub mod loaded;
pub mod log_laws;
pub mod lsm;
pub mod manifest;
pub mod metrics;
pub mod models;
pub mod names;
pub mod node;
pub mod number;
pub mod order;
pub mod parents;
pub mod partitions;
pub mod refresh;
pub mod relation_store;
pub mod relation_tables;
pub mod relations;
pub mod relationships;
pub mod replay;
pub mod routing;
pub mod search;
pub mod segment;
pub mod segment_assemble;
pub mod segment_encode;
pub mod seq_tracker;
pub mod sorting;
pub mod storage_error;
pub mod string_map;
pub mod temporal;
pub mod text;
pub mod vector_plan;
pub mod vectors;
