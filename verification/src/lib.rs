//! Classic in-memory data structures, each implemented against a stated
//! contract: a red-black ordered tree of unique values at the centre, with
//! stacks, queues, linked lists, a priority queue, a path trie and a pair
//! of key checksums beside it.
pub mod red_black_tree;
pub mod device_registry;
pub mod linked_list_enum;
pub mod map;
pub mod queue_linked_list;
pub mod queue_priority;
pub mod queue_vec;
pub mod stack_array;
pub mod stack_linked_list_2;
pub mod stack_vec;
pub mod trie;
