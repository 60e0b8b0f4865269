use vstd::prelude::*;

verus! {

/// Why a list of inputs was not turned into a validated tree.
#[derive(Clone, Debug, PartialEq)]
pub enum AddError {
    /// The technologies named here, each leading to the next and the last to
    /// the first, depend on themselves.
    Cycle(Vec<String>),
    /// The text holds nothing but whitespace.
    InvalidName(String),
    /// An earlier input already carries this name.
    NameExists(String),
    /// No input carries this name.
    UnknownPredecessor(String),
}

/// The mathematical content of an [`AddError`].
pub enum AddErrorView {
    Cycle(Seq<Seq<char>>),
    InvalidName(Seq<char>),
    NameExists(Seq<char>),
    UnknownPredecessor(Seq<char>),
}

impl View for AddError {
    type V = AddErrorView;

    open spec fn view(&self) -> AddErrorView {
        match self {
            AddError::Cycle(names) => AddErrorView::Cycle(names.deep_view()),
            AddError::InvalidName(text) => AddErrorView::InvalidName(text@),
            AddError::NameExists(name) => AddErrorView::NameExists(name@),
            AddError::UnknownPredecessor(name) => AddErrorView::UnknownPredecessor(name@),
        }
    }
}

} // verus!
