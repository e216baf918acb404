//! Buffer pool management with pointer swizzling.

pub mod frame;
pub mod latch;
pub mod page;
pub mod pool;
pub mod store;
pub mod swip;

pub use frame::BufferFrame;
pub use page::Page;
pub use page::PageId;
pub use pool::BufferPool;
pub use store::Store;
pub use swip::Swip;
