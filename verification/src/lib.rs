//! Classification of sequencing reads against a catalog of cut sites.
//!
//! The library builds a read-only catalog of named cut sites per contig,
//! locates the site nearest to a genomic position (with optional circular
//! wraparound), parses alignment records, and classifies each read into a
//! single outcome from its group of alignment segments.

pub mod classify;
pub mod compress;
pub mod cut_site;
pub mod fastq;
pub mod log_level;
pub mod paf;
pub mod params;
pub mod strategy;
pub mod text;

pub use strategy::Strategy;
