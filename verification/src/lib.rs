//! The verified core of a blog about Rust: the algorithms that its articles
//! present, and the rules that its server goes by.
//!
//! Most of it is about singly linked sequences of ordered values: merging two
//! of them, merging any number of them in two ways, finding the middle node of
//! one and reversing one, all by rewriting links and never by copying a node.
//! [`list`] holds the node and the sequence of values that a chain stands for,
//! [`model`] says what merging means on sequences of values, and [`stability`]
//! follows a merge node by node.
//!
//! The rest is small: the bits of a byte ([`bitarray`]), nine numbers that
//! must differ ([`distinct9`]), the exclusive or of a stream ([`xor`]), an
//! exchange of two bytes in a buffer ([`swap`]), and what the server decides
//! without asking anyone ([`error`], [`users`], [`articles`], [`config`]).

pub mod list;
pub mod model;
pub mod stability;

pub mod merge_two_lists;
pub mod min_heap;
pub mod merge_k_sorted_lists_by_heap;
pub mod merge_k_sorted_lists_by_merge2;
pub mod middle_node;
pub mod reverse_list;

pub mod bitarray;
pub mod distinct9;
pub mod swap;
pub mod xor;

pub mod articles;
pub mod config;
pub mod error;
pub mod users;
