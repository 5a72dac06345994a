//! A data-access layer: a pooled-connection lifecycle with one-shot
//! initialization and embedded migrations, plus a generic `ModelExt`
//! capability giving every entity type uniform create/read/update/delete,
//! counting, and aggregation over a record-oriented store.

pub mod aggregate;
pub mod cursor;
pub mod database;
pub mod entities;
pub mod errors;
pub mod models;
pub mod query;
pub mod record;
