//! Pricing engine for a catalog of language models: exact decimal prices,
//! filtering, stable ordering, grouping by provider and itemized request costs.

pub mod text;
pub mod price;
pub mod display;
pub mod model;
pub mod cost;
pub mod order;
pub mod sort;
pub mod filter;
pub mod group;
pub mod report;
