//! A binary heap parameterized by an ordering strategy.
//!
//! The same container serves as a min-heap or a max-heap depending on the
//! comparator it is constructed with; `MinHeap` and `MaxHeap` supply the two
//! default strategies for totally ordered element types.

pub mod heap;
pub mod order;

pub use heap::Heap;
pub use heap::MaxHeap;
pub use heap::MinHeap;
pub use order::Comparator;
pub use order::MaxOrder;
pub use order::MinOrder;
pub use order::StrictOrdered;
