//! In-process state store for a desktop todo list.
//!
//! A [`store::TodoStore`] owns the ordered collection of task records and
//! offers four synchronous operations: list, add, toggle-completion and
//! delete. Every operation carries a contract that pins down its result and
//! its effect on the collection; the general laws that relate the operations
//! are proved in [`laws`].

pub mod laws;
pub mod store;

pub use store::Task;
pub use store::TodoError;
pub use store::TodoStore;
