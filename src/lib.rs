//! A singly linked list held in an arena of nodes, with append, indexed
//! lookup and a stable merge of two sorted lists.
pub mod list;
pub mod merge;
pub mod render;

pub use list::{LinkedList, Node};
pub use render::join_texts;
