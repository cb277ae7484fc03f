//! Directory walking: which files the indexer reads and how directory
//! listings are presented.

pub mod walker;
