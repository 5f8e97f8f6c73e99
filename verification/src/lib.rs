//! Parsing of log files: parser combinators over string slices, parsers of
//! standard types and typed models of log records, each with its contract.

pub mod parser;

pub use parser::api;
pub use parser::errors::ParsersError;
pub use parser::model::{
    AppLogErrorKind, AppLogJournalKind, AppLogKind, AppLogTraceKind, LogKind, Status,
    SystemLogErrorKind, SystemLogKind, SystemLogTraceKind,
};
