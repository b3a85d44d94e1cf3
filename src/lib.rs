//! Shared algorithms for text and byte sequences: index normalisation,
//! affix matching, splitting, stripping, searching, padding, joining,
//! partitioning, line splitting, case classification and zero filling.
use vstd::prelude::*;

pub mod anystr;
pub mod args;
pub mod element;
pub mod index;
pub mod matcher;
pub mod search;
pub mod split;
