//! Trace processing for a continuous-testing tracing backend: the tag
//! taxonomy, the extraction of a test result from a trace's root span, the
//! debounced trace-completion watcher, the ancestor-path cache, the tiered
//! retention sweep, and the storing and listing of test results and test
//! items over an in-memory model of the stored tables.

pub mod text;
mod clock;
pub mod assoc;
pub mod tags;
pub mod span;
pub mod extract;
pub mod cache;
pub mod watcher;
pub mod store;
pub mod retention;
pub mod persist;
pub mod query;
pub mod items;
