//! The core of a viewer for deep mutational scanning data: the effect of
//! every substitution at every position of a protein, shown as a table of
//! positions by amino acids that is loaded page by page.
//!
//! Rows come in as tab-separated text ([`ingest`], [`upload`]), are kept
//! by protein and condition ([`store`]) and asked for by page ([`query`]).
//! A page shows one row for each position under a ranking policy, or every
//! row without one ([`ranking`]); its rows are laid out as a grid over the
//! alphabet ([`grid`]) and coloured on a scale from red over white to blue
//! ([`color`]). What a request is answered with is put together in
//! [`views`]; what it may ask for, in [`controls`].
//!
//! Every function states what it returns, and Verus proves that it does;
//! the few calls into `csv`, `chrono` and `rand` stand behind private
//! functions whose contracts are taken on trust and say so. The laws that
//! hold between functions are the public `lemma_` proofs of each module.

pub mod color;
pub mod config;
pub mod controls;
pub mod grid;
pub mod ingest;
pub mod model;
pub mod query;
pub mod ranking;
pub mod store;
pub mod text;
pub mod title;
pub mod upload;
pub mod views;

pub use color::{Color, Normalizer};
pub use config::EnvironmentVariables;
pub use grid::{DisplayCell, Grid, LazyLoad};
pub use model::{
    default_protein, Operation, Paint, PlotType, PosColor, PositionFilter, Protein, TableParams,
    Variant, VariantColor, AMINO_ACIDS, METRIC_SCALE, PAGE_SIZE,
};
pub use query::{MetricRange, StoreError};
pub use ranking::PageWindow;
pub use store::VariantStore;
pub use title::TitleQuery;
