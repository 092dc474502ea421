//! Error values of the library.
use vstd::prelude::*;

verus! {

/// Why a box or a tree could not be made.
#[derive(Clone, Copy, Debug, PartialEq, Eq, Structural)]
pub enum BuildError {
    /// The primitive collection is empty where a box over it is asked for.
    EmptyInput,
    /// A box whose lower bound lies above its upper bound on some axis.
    InvalidBounds,
    /// An axis index that is not below the number of dimensions.
    InvalidAxis,
    /// The split strategy is named but has no rule yet.
    UnsupportedStrategy,
}

/// What went wrong while a mesh was turned into vertex and index buffers.
#[derive(Clone, Copy, Debug, PartialEq, Eq, Structural)]
pub enum LoadErrorKind {
    /// Met unexpected statement.
    UnexpectedStatement,
    /// Received wrong number of arguments.
    WrongNumberOfArguments,
    /// Received unexpected type of arguments.
    WrongTypeOfArguments,
    /// Model should be triangulated first to be loaded properly.
    UntriangulatedModel,
    /// Model cannot be transformed into requested form.
    InsufficientData,
    /// Received index value out of range.
    IndexOutOfRange,
    /// A line is expected after the backslash.
    BackslashAtEOF,
    /// Group number exceeded limitation.
    TooBigGroupNumber,
}

/// A failure to load a mesh: its kind and a note on where it arose.
#[derive(Clone, Debug)]
pub struct LoadError {
    kind: LoadErrorKind,
    message: &'static str,
}

/// The failures of loading a mesh that the library itself can find.
#[derive(Clone, Debug)]
pub enum ObjError {
    /// The mesh data cannot be turned into the buffers asked for.
    Load(LoadError),
}

impl LoadErrorKind {
    /// The sentence that names the kind.
    pub open spec fn text_of(self) -> Seq<char> {
        match self {
            LoadErrorKind::UnexpectedStatement => "Met unexpected statement"@,
            LoadErrorKind::WrongNumberOfArguments => "Received wrong number of arguments"@,
            LoadErrorKind::WrongTypeOfArguments => "Received unexpected type of arguments"@,
            LoadErrorKind::UntriangulatedModel => "Model should be triangulated first to be loaded properly"@,
            LoadErrorKind::InsufficientData => "Model cannot be transformed into requested form"@,
            LoadErrorKind::IndexOutOfRange => "Received index value out of range"@,
            LoadErrorKind::BackslashAtEOF => "A line is expected after the backslash (\\)"@,
            LoadErrorKind::TooBigGroupNumber => "Group number exceeded limitation."@,
        }
    }

    /// The sentence that names the kind.
    pub fn text(&self) -> (s: &'static str)
        ensures
            s@ == self.text_of(),
    {
        match self {
            LoadErrorKind::UnexpectedStatement => "Met unexpected statement",
            LoadErrorKind::WrongNumberOfArguments => "Received wrong number of arguments",
            LoadErrorKind::WrongTypeOfArguments => "Received unexpected type of arguments",
            LoadErrorKind::UntriangulatedModel => "Model should be triangulated first to be loaded properly",
            LoadErrorKind::InsufficientData => "Model cannot be transformed into requested form",
            LoadErrorKind::IndexOutOfRange => "Received index value out of range",
            LoadErrorKind::BackslashAtEOF => "A line is expected after the backslash (\\)",
            LoadErrorKind::TooBigGroupNumber => "Group number exceeded limitation.",
        }
    }
}

impl LoadError {
    /// The kind of the failure.
    pub closed spec fn kind_of(self) -> LoadErrorKind {
        self.kind
    }

    /// The note that came with the failure.
    pub closed spec fn note_of(self) -> Seq<char> {
        self.message@
    }

    /// Creates a failure of the given kind with a note.
    pub fn new(kind: LoadErrorKind, message: &'static str) -> (e: LoadError)
        ensures
            e.kind_of() == kind,
            e.note_of() == message@,
    {
        LoadError { kind, message }
    }

    /// The kind of the failure.
    pub fn kind(&self) -> (k: &LoadErrorKind)
        ensures
            *k == self.kind_of(),
    {
        &self.kind
    }

    /// The note that came with the failure.
    pub fn message(&self) -> (m: &'static str)
        ensures
            m@ == self.note_of(),
    {
        self.message
    }
}

} // verus!
