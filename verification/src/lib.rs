//! A single-user task list: an ordered store of tasks addressed by 1-based
//! indices, with a canonical JSON text form used to persist the whole store.

pub mod codec;
pub mod store;

pub use store::Task;
pub use store::TaskView;
pub use store::TodoApp;
