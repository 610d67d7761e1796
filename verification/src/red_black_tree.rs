//! A red-black ordered tree of unique `i64` values: search, insertion with
//! bottom-up rebalancing, deletion with a case-by-case restoration of the
//! colour and black-height invariants, traversals, a validator and a
//! bulk-load key reorderer.
pub mod node;
pub mod put;
pub mod remove;
pub mod tree;
pub mod traverse;
pub mod batch;
pub mod display;

pub use node::Node;
pub use tree::{find_node, Tree};
pub use batch::helper_prepare_batch_put;
pub use traverse::{leftmost_child_in_order, IterInOrder, IterPostOrder, IterPreOrder};
