//! Verified core of a spatial-barcode extraction toolkit.
//!
//! The library covers the sequence-position addressing model, the
//! pattern/quality matching engine, the filter/dedup extraction pipeline,
//! the cross-tile dedup engine and the tile matcher. File, process and
//! thread handling live outside the library.

pub mod ascii;
pub mod dedup;
pub mod error;
pub mod fq2bam;
pub mod matcher;
pub mod pipeline;
pub mod position;
pub mod sample;
pub mod shared_set;
pub mod text;
pub mod tiles;
pub mod touchbarcode;
