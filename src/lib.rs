//! Payloads of process-wide singletons, the state machines that guard them,
//! and a family of in-place sorting routines.

pub mod access;
pub mod cache;
pub mod config;
pub mod connection_pool;
pub mod database;
pub mod gate;
pub mod logger;
pub mod service;
pub mod table;

pub mod bubble_sort;
pub mod bucket;
pub mod counting_sort;
pub mod heap_sort;
pub mod insertion_sort;
pub mod merge_sort;
pub mod order;
pub mod quick_sort;
pub mod radix_sort;
pub mod selection_sort;
