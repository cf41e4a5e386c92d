//! The run-time system: class loader, values and frames, heap, collector
//! and threads.
pub mod class_loader;
pub mod frame;
pub mod gc;
pub mod heap;
pub mod thread;

pub use class_loader::ClassLoader;
pub use frame::Frame;
pub use heap::Heap;
pub use thread::Thread;
