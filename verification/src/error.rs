//! The library's error type.
use vstd::prelude::*;
use crate::model::DocError;

verus! {

/// Errors of the form operations.
#[derive(Debug)]
pub enum PdferError {
    /// An object lookup failed.
    Lopdf(DocError),
    MissingCatalog,
    MissingAcroForm,
    MissingFields,
    MissingPage(usize),
    MissingField(String),
    InvalidField(String),
    InvalidStructure(&'static str),
    Unsupported(&'static str),
    Message(String),
}

/// The view of an error.
pub enum SErr {
    Lopdf(DocError),
    MissingCatalog,
    MissingAcroForm,
    MissingFields,
    MissingPage(usize),
    MissingField(Seq<char>),
    InvalidField(Seq<char>),
    InvalidStructure(Seq<char>),
    Unsupported(Seq<char>),
    Message(Seq<char>),
}

impl PdferError {
    /// The mathematical value of this error.
    pub open spec fn sv(self) -> SErr {
        match self {
            PdferError::Lopdf(e) => SErr::Lopdf(e),
            PdferError::MissingCatalog => SErr::MissingCatalog,
            PdferError::MissingAcroForm => SErr::MissingAcroForm,
            PdferError::MissingFields => SErr::MissingFields,
            PdferError::MissingPage(i) => SErr::MissingPage(i),
            PdferError::MissingField(s) => SErr::MissingField(s@),
            PdferError::InvalidField(s) => SErr::InvalidField(s@),
            PdferError::InvalidStructure(s) => SErr::InvalidStructure(s@),
            PdferError::Unsupported(s) => SErr::Unsupported(s@),
            PdferError::Message(s) => SErr::Message(s@),
        }
    }
}

/// A result whose success value is its own view.
pub open spec fn res_id<T>(r: Result<T, PdferError>) -> Result<T, SErr> {
    match r {
        Ok(t) => Ok(t),
        Err(e) => Err(e.sv()),
    }
}

/// An object-lookup result, its error wrapped.
pub open spec fn lopdf_res<T>(r: Result<T, DocError>) -> Result<T, SErr> {
    match r {
        Ok(t) => Ok(t),
        Err(e) => Err(SErr::Lopdf(e)),
    }
}

/// The result of a fallible operation, viewed.
pub open spec fn res_v<T, V>(r: Result<T, PdferError>, f: spec_fn(T) -> V) -> Result<V, SErr> {
    match r {
        Ok(t) => Ok(f(t)),
        Err(e) => Err(e.sv()),
    }
}

} // verus!
