//! Fundamental generic collections with verified behaviour: a growable
//! vector built over an explicit capacity protocol, a double-ended queue
//! with a cursor that can splice and split whole queues at its position,
//! a singly linked FIFO queue, and ordered binary search trees.

pub mod binary_tree;
pub mod decimal;
pub mod dequeue;
pub mod queue;
pub mod tree;
pub mod vector;

pub use binary_tree::BinaryTree;
pub use dequeue::Dequeue;
pub use queue::Queue;
pub use tree::Tree;
pub use vector::Vector;
