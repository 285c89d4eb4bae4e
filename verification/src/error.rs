//! The error types of the parsing and transcoding layers. Both carry the
//! source position of the offending construct.

use vstd::prelude::*;
use crate::value::Position;

verus! {

/// Why a source text was rejected by the parser.
#[derive(Clone, Copy, PartialEq, Eq, Structural, Debug)]
pub enum ParseErrorKind {
    /// A backtick that does not complete a legal escape pair.
    IllegalEscape,
    /// A `#` immediately followed by a structural delimiter.
    IllegalHash,
    /// A quote, verbatim segment, block, group, table, tag or row left open.
    UnterminatedConstruct,
    /// A raw line break inside a verbatim segment.
    LineBreakInVerbatim,
    /// A table cell position holding only whitespace.
    BlankTableCell,
    /// Rows of one table with differing column counts, or malformed framing.
    RaggedTable,
    /// A reserved character where it has no structural role.
    UnexpectedToken,
    /// An unknown reformatting flag on a text-block marker.
    UnknownBlockFlag,
    /// A dictionary key that repeats an earlier key.
    DuplicateKey,
}

/// A parse error: the kind of offense and where it begins.
#[derive(Clone, Copy, PartialEq, Eq, Structural, Debug)]
pub struct ParseError {
    pub position: Position,
    pub kind: ParseErrorKind,
}

/// Why a value tree could not be transcoded to the output language.
#[derive(Debug)]
pub enum PreprocessorError {
    /// A table appeared where tables are not legal.
    IllegalTable(Position),
    /// A dictionary appeared; dictionaries are never representable.
    IllegalDictionary(Position),
    /// A table whose column count is zero.
    ZeroTable(Position),
    /// A directive was misused; the message says how.
    MacroError(Position, String),
    /// A command taking an optional argument was invoked with none.
    MissingOptionalArgument(Position),
}

/// The mathematical shadow of [`PreprocessorError`]: the message of a
/// directive error is abstracted to its character sequence.
pub enum PreprocessorErrorView {
    IllegalTable(Position),
    IllegalDictionary(Position),
    ZeroTable(Position),
    MacroError(Position, Seq<char>),
    MissingOptionalArgument(Position),
}

impl View for PreprocessorError {
    type V = PreprocessorErrorView;

    open spec fn view(&self) -> PreprocessorErrorView {
        match self {
            PreprocessorError::IllegalTable(at) => PreprocessorErrorView::IllegalTable(*at),
            PreprocessorError::IllegalDictionary(at) => PreprocessorErrorView::IllegalDictionary(
                *at,
            ),
            PreprocessorError::ZeroTable(at) => PreprocessorErrorView::ZeroTable(*at),
            PreprocessorError::MacroError(at, message) => PreprocessorErrorView::MacroError(
                *at,
                message@,
            ),
            PreprocessorError::MissingOptionalArgument(at) => {
                PreprocessorErrorView::MissingOptionalArgument(*at)
            },
        }
    }
}

impl PreprocessorError {
    /// The source position the error points at.
    pub fn position(&self) -> (p: Position)
        ensures
            p == match self@ {
                PreprocessorErrorView::IllegalTable(at) => at,
                PreprocessorErrorView::IllegalDictionary(at) => at,
                PreprocessorErrorView::ZeroTable(at) => at,
                PreprocessorErrorView::MacroError(at, _) => at,
                PreprocessorErrorView::MissingOptionalArgument(at) => at,
            },
    {
        match self {
            PreprocessorError::IllegalTable(at) => *at,
            PreprocessorError::IllegalDictionary(at) => *at,
            PreprocessorError::ZeroTable(at) => *at,
            PreprocessorError::MacroError(at, _) => *at,
            PreprocessorError::MissingOptionalArgument(at) => *at,
        }
    }
}

} // verus!
