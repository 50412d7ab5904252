//! An aggregation-pipeline model for a document store of cocktail recipes.
//!
//! Loosely-typed `Document` values flow through a `Pipeline` of `Stage`s
//! (match, sort, lookup join, computed fields, limit); a `Projector` turns a
//! `Document` into a strongly-typed `Recipe`. All transformations are pure:
//! fetching documents from the actual store is the caller's concern.

pub mod avg;
pub mod display;
pub mod document;
pub mod facade;
pub mod order;
pub mod pipeline;
pub mod project;
pub mod sort;
pub mod stage;
