//! Building the programs of a workspace, each with the features chosen for it.
//!
//! The library finds the buildable programs among the packages of a
//! workspace ([`scan`]), carries what was selected over to a fresh scan
//! ([`reconcile`]), plans the calls of the build tool for each kind of batch
//! ([`invocation`]), makes them one at a time and words what is told of them
//! ([`batch`], [`report`]), and keeps named selections ([`store`]). The state
//! that an operator works on is [`BuildTool`].
//!
//! The library starts no process and touches no file: it hands out what is
//! to be run and takes back how it ended.

pub mod batch;
pub mod invocation;
pub mod model;
pub mod reconcile;
pub mod report;
pub mod scan;
pub mod sequences;
pub mod store;
pub mod text;
pub mod tool;

pub use batch::{Batch, Phase, Step};
pub use invocation::Invocation;
pub use model::{Feature, Preset, Program};
pub use report::Outcome;
pub use scan::{Candidate, ScanFailure};
pub use store::SaveOutcome;
pub use tool::BuildTool;
