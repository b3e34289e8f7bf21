//! Stratum core: documentation generation and data-layer building blocks.

pub mod data;
pub mod doc;
pub mod fmt;
pub mod sort;
pub mod text;
