//! Verified structural core of a heterosegmented group-contribution PC-SAFT
//! model: segment records, molecular topologies, the parameter assembler with
//! its combining-rule bookkeeping, and the control logic of the
//! cross-association solver.

pub mod checks;
pub mod eos;
pub mod functional;
pub mod graph;
pub mod imap;
pub mod lookup;
pub mod model;
pub mod parameters;
pub mod record;
pub mod select;
pub mod solver;

pub use eos::GcPcSaftEosParameters;
pub use functional::GcPcSaftFunctionalParameters;
pub use parameters::GcPcSaftParameters;
pub use record::GcPcSaftOptions;
pub use record::GcPcSaftRecord;
pub use record::Par;
