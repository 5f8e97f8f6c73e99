//! Log-file parsing machinery.

pub mod api;
pub mod combinators;
pub mod constructors;
pub mod errors;
pub mod model;
pub mod stdp;
pub mod text;
pub mod traits;

pub use model::{
    AppLogErrorKind, AppLogJournalKind, AppLogKind, AppLogTraceKind, LogKind, Status,
    SystemLogErrorKind, SystemLogKind, SystemLogTraceKind,
};
