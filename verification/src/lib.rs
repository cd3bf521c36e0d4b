//! A flashcard word store with a timed study session.
//!
//! Groups hold named word tables; a table holds english/chinese pairs. The
//! store, the paste-in text parser, the study session and the selection
//! state are plain data with verified operations. Drawing, the clock and
//! files belong to the host program.

pub mod controller;
pub mod json;
pub mod model;
pub mod naming;
pub mod parser;
pub mod selection;
pub mod session;
pub mod session_laws;
pub mod snapshot;
pub mod store;
pub mod store_laws;
pub mod store_spec;
pub mod text;

pub use controller::{FlashMemoryApp, Notice, SaveOutcome};
pub use model::{Word, WordTable};
pub use selection::Selection;
pub use session::{FlashMode, Progress, StartOutcome, StudySession};
pub use snapshot::SnapshotError;
pub use store::FlashMemory;
pub use store_spec::StoreError;
