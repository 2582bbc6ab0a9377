//! Scanning source trees for class-name chains.

pub mod class_name;
pub mod class_name_collector;
