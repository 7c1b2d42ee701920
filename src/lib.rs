//! Episode identity reconciliation against a remote comment database, a
//! cache of earlier alignments, and normalisation of raw comment records.

pub mod align;
pub mod comment;
pub mod ident;
pub mod linkage;
pub mod options;
pub mod resolve;
pub mod service;
pub mod text;
