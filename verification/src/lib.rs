//! Haven core: the verified logic of a local-first backlog store.

pub mod error;
pub mod text;
pub mod time;
pub mod model;
pub mod words;
pub mod json;
pub mod backup;
pub mod util;
pub mod telemetry;
pub mod item;
pub mod edge;
pub mod query;
pub mod prime;
pub mod import;
pub mod content;
pub mod evolve;
pub mod artifact;
pub mod xref_report;
pub mod lookup;
pub mod views;
pub mod project;
