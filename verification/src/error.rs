//! The library's error type.
use vstd::prelude::*;

verus! {

/// `reqwest::Error`, carried unchanged inside [`GhLlmCostError::Http`].
#[verifier::external_type_specification]
#[verifier::external_body]
pub struct ExReqwestError(reqwest::Error);

/// `std::io::Error`, carried unchanged inside [`GhLlmCostError::Io`].
#[verifier::external_type_specification]
#[verifier::external_body]
pub struct ExIoError(std::io::Error);

/// Everything that can go wrong while fetching, parsing or showing the
/// pricing table.
#[derive(Debug)]
pub enum GhLlmCostError {
    Http(reqwest::Error),
    Io(std::io::Error),
    Terminal(String),
    Parse(String),
    NoData,
}

/// What an error says, with the messages as character sequences.
pub enum ErrorView {
    Http,
    Io,
    Terminal(Seq<char>),
    Parse(Seq<char>),
    NoData,
}

impl View for GhLlmCostError {
    type V = ErrorView;

    open spec fn view(&self) -> ErrorView {
        match self {
            GhLlmCostError::Http(_) => ErrorView::Http,
            GhLlmCostError::Io(_) => ErrorView::Io,
            GhLlmCostError::Terminal(m) => ErrorView::Terminal(m@),
            GhLlmCostError::Parse(m) => ErrorView::Parse(m@),
            GhLlmCostError::NoData => ErrorView::NoData,
        }
    }
}

} // verus!
