//! PDF AcroForm inspection and filling over a plain-value model of a PDF
//! document.
use vstd::prelude::*;

pub mod access;
pub mod appearance;
pub mod compat;
pub mod edit;
pub mod error;
pub mod field_flags;
pub mod fields;
pub mod fill;
pub mod inspect;
pub mod keys;
pub mod laws;
pub mod merge;
pub mod model;
pub mod objects;
pub mod ops;
pub mod order;
pub mod pages;
pub mod text;

verus! {

} // verus!
