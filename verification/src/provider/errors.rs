//! The kinds of failure and how far each of them reaches.

use crate::c_sharp_graph::graph::GraphError;
use crate::c_sharp_graph::loader::IngestError;
use crate::c_sharp_graph::pattern::PatternError;
use crate::c_sharp_graph::query::QueryError;
use crate::provider::dependency_resolution::ResolveError;
use vstd::prelude::*;

verus! {

/// What can go wrong.
#[derive(Debug, Clone, Copy, PartialEq, Eq, Structural)]
pub enum ErrorKind {
    /// A pattern does not compile.
    BadPattern,
    /// The graph construction rules do not parse.
    TsgParse,
    /// The built-in graph cannot be built.
    Builtins,
    /// The graph of a file cannot be built.
    GraphBuild,
    /// The store cannot be opened.
    StoreOpen,
    /// The store cannot be written.
    StoreIo,
    /// The package manager cannot convert the project.
    ResolveConvert,
    /// An outside program cannot be started.
    ResolveSpawn,
    /// A file of the package manager does not read as expected.
    ResolveParse,
    /// The decompiler failed on a dependency.
    Decompile,
    /// The graph does not have the shape that the evaluator relies on.
    GraphInconsistent,
    /// A directory cannot be walked.
    Walk,
    /// A file cannot be read.
    Read,
    /// The work was cancelled.
    Cancelled,
}

/// How far a failure reaches.
#[derive(Debug, Clone, Copy, PartialEq, Eq, Structural)]
pub enum Propagation {
    /// The caller made a bad request and is told so.
    CallerError,
    /// The caller is told of a failure on the provider's side.
    ServerError,
    /// The project cannot be used any more.
    FatalToProject,
    /// The ingestion that hit the failure ends; nothing of it is kept.
    FatalToIngest,
    /// The failure is logged and the work goes on.
    NonFatal,
    /// The failure is handed up as it is.
    Unchanged,
}

/// How far each kind of failure reaches.
pub open spec fn propagation_of(kind: ErrorKind) -> Propagation {
    match kind {
        ErrorKind::BadPattern => Propagation::CallerError,
        ErrorKind::TsgParse => Propagation::FatalToProject,
        ErrorKind::Builtins => Propagation::FatalToProject,
        ErrorKind::GraphBuild => Propagation::FatalToIngest,
        ErrorKind::StoreOpen => Propagation::FatalToProject,
        ErrorKind::StoreIo => Propagation::FatalToIngest,
        ErrorKind::ResolveConvert => Propagation::FatalToProject,
        ErrorKind::ResolveSpawn => Propagation::FatalToProject,
        ErrorKind::ResolveParse => Propagation::NonFatal,
        ErrorKind::Decompile => Propagation::NonFatal,
        ErrorKind::GraphInconsistent => Propagation::ServerError,
        ErrorKind::Walk => Propagation::FatalToIngest,
        ErrorKind::Read => Propagation::FatalToIngest,
        ErrorKind::Cancelled => Propagation::Unchanged,
    }
}

/// The name of each kind of failure.
pub open spec fn kind_name(kind: ErrorKind) -> Seq<char> {
    match kind {
        ErrorKind::BadPattern => "ErrBadPattern"@,
        ErrorKind::TsgParse => "ErrTsgParse"@,
        ErrorKind::Builtins => "ErrBuiltins"@,
        ErrorKind::GraphBuild => "ErrGraphBuild"@,
        ErrorKind::StoreOpen => "ErrStoreOpen"@,
        ErrorKind::StoreIo => "ErrStoreIo"@,
        ErrorKind::ResolveConvert => "ErrResolveConvert"@,
        ErrorKind::ResolveSpawn => "ErrResolveSpawn"@,
        ErrorKind::ResolveParse => "ErrResolveParse"@,
        ErrorKind::Decompile => "ErrDecompile"@,
        ErrorKind::GraphInconsistent => "ErrGraphInconsistent"@,
        ErrorKind::Walk => "ErrWalk"@,
        ErrorKind::Read => "ErrRead"@,
        ErrorKind::Cancelled => "ErrCancelled"@,
    }
}

impl ErrorKind {
    /// The name of this kind of failure.
    pub fn name(self) -> (name: &'static str)
        ensures
            name@ == kind_name(self),
    {
        match self {
            ErrorKind::BadPattern => "ErrBadPattern",
            ErrorKind::TsgParse => "ErrTsgParse",
            ErrorKind::Builtins => "ErrBuiltins",
            ErrorKind::GraphBuild => "ErrGraphBuild",
            ErrorKind::StoreOpen => "ErrStoreOpen",
            ErrorKind::StoreIo => "ErrStoreIo",
            ErrorKind::ResolveConvert => "ErrResolveConvert",
            ErrorKind::ResolveSpawn => "ErrResolveSpawn",
            ErrorKind::ResolveParse => "ErrResolveParse",
            ErrorKind::Decompile => "ErrDecompile",
            ErrorKind::GraphInconsistent => "ErrGraphInconsistent",
            ErrorKind::Walk => "ErrWalk",
            ErrorKind::Read => "ErrRead",
            ErrorKind::Cancelled => "ErrCancelled",
        }
    }

    /// How far a failure of this kind reaches.
    pub fn propagation(self) -> (p: Propagation)
        ensures
            p == propagation_of(self),
    {
        match self {
            ErrorKind::BadPattern => Propagation::CallerError,
            ErrorKind::TsgParse | ErrorKind::Builtins | ErrorKind::StoreOpen
            | ErrorKind::ResolveConvert | ErrorKind::ResolveSpawn => Propagation::FatalToProject,
            ErrorKind::GraphBuild | ErrorKind::StoreIo | ErrorKind::Walk | ErrorKind::Read => {
                Propagation::FatalToIngest
            },
            ErrorKind::ResolveParse | ErrorKind::Decompile => Propagation::NonFatal,
            ErrorKind::GraphInconsistent => Propagation::ServerError,
            ErrorKind::Cancelled => Propagation::Unchanged,
        }
    }

    /// Whether a failure of this kind while a project is set up ends the
    /// project: everything does but what is only logged.
    pub fn ends_setup(self) -> (ends: bool)
        ensures
            ends == (propagation_of(self) != Propagation::NonFatal),
    {
        match self.propagation() {
            Propagation::NonFatal => false,
            _ => true,
        }
    }

    /// The kind of a failed pattern.
    pub fn of_pattern(e: PatternError) -> (kind: ErrorKind)
        ensures
            kind == ErrorKind::BadPattern,
    {
        match e {
            PatternError::BadPattern => ErrorKind::BadPattern,
        }
    }

    /// The kind of a failed query.
    pub fn of_query(e: QueryError) -> (kind: ErrorKind)
        ensures
            kind == match e {
                QueryError::BadPattern => ErrorKind::BadPattern,
                QueryError::GraphInconsistent => ErrorKind::GraphInconsistent,
            },
    {
        match e {
            QueryError::BadPattern => ErrorKind::BadPattern,
            QueryError::GraphInconsistent => ErrorKind::GraphInconsistent,
        }
    }

    /// The kind of a failed ingestion.
    pub fn of_ingest(e: IngestError) -> (kind: ErrorKind)
        ensures
            kind == match e {
                IngestError::Walk => ErrorKind::Walk,
                IngestError::Read => ErrorKind::Read,
                IngestError::GraphBuild => ErrorKind::GraphBuild,
                IngestError::StoreIo => ErrorKind::StoreIo,
            },
    {
        match e {
            IngestError::Walk => ErrorKind::Walk,
            IngestError::Read => ErrorKind::Read,
            IngestError::GraphBuild => ErrorKind::GraphBuild,
            IngestError::StoreIo => ErrorKind::StoreIo,
        }
    }

    /// The kind of a failed resolution.
    pub fn of_resolve(e: ResolveError) -> (kind: ErrorKind)
        ensures
            kind == match e {
                ResolveError::ResolveConvert => ErrorKind::ResolveConvert,
                ResolveError::ResolveParse => ErrorKind::ResolveParse,
                ResolveError::ResolveSpawn => ErrorKind::ResolveSpawn,
                ResolveError::Decompile => ErrorKind::Decompile,
            },
    {
        match e {
            ResolveError::ResolveConvert => ErrorKind::ResolveConvert,
            ResolveError::ResolveParse => ErrorKind::ResolveParse,
            ResolveError::ResolveSpawn => ErrorKind::ResolveSpawn,
            ResolveError::Decompile => ErrorKind::Decompile,
        }
    }

    /// The kind of a change that a graph refused: the graph would not keep
    /// to its invariant.
    pub fn of_graph(e: GraphError) -> (kind: ErrorKind)
        ensures
            kind == ErrorKind::GraphInconsistent,
    {
        ErrorKind::GraphInconsistent
    }
}

} // verus!
