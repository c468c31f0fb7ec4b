pub mod arena;
pub mod buffer;
pub mod builder;
pub mod coerce;
pub mod dtype;
pub mod error;
pub mod expr;
pub mod ir;
pub mod join;
pub mod optimize;
pub mod options;
pub mod rolling;
pub mod scan;
pub mod schema;
pub mod storage;
