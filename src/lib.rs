//! A persistent singly-linked list whose versions share unchanged tails.

pub mod laws;
pub mod list;

pub use list::{create_i32_list, LinkedList};
