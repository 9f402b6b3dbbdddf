//! Generative art collections: a weighted catalog of layered traits, random
//! selection of one trait per layer, uniqueness across a collection, and the
//! metadata that describes each generated asset.

pub mod asset;
pub mod catalog;
pub mod error;
pub mod generator;
pub mod naming;
pub mod select;
