//! What a command says, and where.
use vstd::prelude::*;

verus! {

/// What a command says: its answer, or a note beside it.
#[derive(Debug)]
pub enum Output {
    Stdout(String),
    Stderr(String),
}

/// What a command says.
#[verifier::ext_equal]
pub enum OutputView {
    Stdout(Seq<char>),
    Stderr(Seq<char>),
}

impl View for Output {
    type V = OutputView;

    open spec fn view(&self) -> OutputView {
        match self {
            Output::Stdout(s) => OutputView::Stdout(s@),
            Output::Stderr(s) => OutputView::Stderr(s@),
        }
    }
}

}
