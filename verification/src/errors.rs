//! The ways in which bundling can fail on the text it is given.
use vstd::prelude::*;

verus! {

/// Why a bundling step gave up.
#[derive(Debug)]
pub enum CatrinaError {
    /// The regular expression that finds names or paths in a line was refused.
    BadExpression,
    /// A JavaScript import line holds no `{...}` list of names or no quoted path.
    NoCoincidences,
    /// The expression for a list of names matched the empty text, from which
    /// no list can be cut.
    EmptyMatch,
    /// A name that a project imports is exported by no module of the library.
    ImportNotInCatrina,
    /// A file that the step needs could not be read; its path.
    FileNotRead(String),
    /// The path of an imported stylesheet has no file name.
    NoFileName,
    /// The minifier refused the stylesheet.
    MinifyRefused,
    /// The text has a non-ASCII character right after a comment opener,
    /// which the minifier cannot take.
    MinifyUnsafe,
}

/// An error as plain values.
pub enum ErrorView {
    /// See [`CatrinaError::BadExpression`].
    BadExpression,
    /// See [`CatrinaError::NoCoincidences`].
    NoCoincidences,
    /// See [`CatrinaError::EmptyMatch`].
    EmptyMatch,
    /// See [`CatrinaError::ImportNotInCatrina`].
    ImportNotInCatrina,
    /// See [`CatrinaError::FileNotRead`].
    FileNotRead(Seq<char>),
    /// See [`CatrinaError::NoFileName`].
    NoFileName,
    /// See [`CatrinaError::MinifyRefused`].
    MinifyRefused,
    /// See [`CatrinaError::MinifyUnsafe`].
    MinifyUnsafe,
}

impl View for CatrinaError {
    type V = ErrorView;

    open spec fn view(&self) -> ErrorView {
        match self {
            CatrinaError::BadExpression => ErrorView::BadExpression,
            CatrinaError::NoCoincidences => ErrorView::NoCoincidences,
            CatrinaError::EmptyMatch => ErrorView::EmptyMatch,
            CatrinaError::ImportNotInCatrina => ErrorView::ImportNotInCatrina,
            CatrinaError::FileNotRead(p) => ErrorView::FileNotRead(p@),
            CatrinaError::NoFileName => ErrorView::NoFileName,
            CatrinaError::MinifyRefused => ErrorView::MinifyRefused,
            CatrinaError::MinifyUnsafe => ErrorView::MinifyUnsafe,
        }
    }
}

} // verus!
