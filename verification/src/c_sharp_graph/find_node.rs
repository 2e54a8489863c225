//! The entry point of a search: a pattern, run against a project.

use crate::c_sharp_graph::query::{query_result, Querier, QueryError, QueryKind};
use crate::c_sharp_graph::results::{ResultModel, ResultNode};
use crate::provider::project::Project;
use vstd::prelude::*;

verus! {

/// A search for the references to a dotted pattern.
pub struct FindNode {
    /// Where the caller asked to look; not used to narrow the search.
    pub node_type: Option<String>,
    /// The dotted pattern.
    pub regex: String,
}

/// Why a search gave no result.
#[derive(Debug, Clone, Copy, PartialEq, Eq, Structural)]
pub enum FindError {
    /// The project has no graph yet.
    GraphNotFound,
    /// The project has no language configuration yet, and so no marker to
    /// run the search under.
    SourceTypeNotFound,
    /// The query failed.
    Query(QueryError),
}

/// The outcome of a search as a mathematical value.
pub open spec fn find_outcome(res: Result<Vec<ResultNode>, FindError>) -> Result<
    Seq<ResultModel>,
    FindError,
> {
    match res {
        Ok(results) => Ok(crate::c_sharp_graph::results::result_views(results@)),
        Err(e) => Err(e),
    }
}

/// What a query of a project gives: it needs the project's graph and its
/// marker, and then gives what the query of that graph gives under that
/// marker as it is found in the graph.
pub open spec fn project_query_result(
    project: &Project,
    pattern: Seq<char>,
    kind: QueryKind,
) -> Result<Seq<ResultModel>, FindError> {
    match project.graph_model() {
        None => Err(FindError::GraphNotFound),
        Some(g) => match project.source_type() {
            None => Err(FindError::SourceTypeNotFound),
            Some(source_type) => match query_result(g, pattern, kind, source_type.located(g)) {
                Ok(results) => Ok(results),
                Err(e) => Err(FindError::Query(e)),
            },
        },
    }
}

/// What a search gives: what the query for every class and method gives.
pub open spec fn find_result(project: &Project, pattern: Seq<char>) -> Result<
    Seq<ResultModel>,
    FindError,
> {
    project_query_result(project, pattern, QueryKind::All)
}

/// Two projects that keep equal graphs under equal markers give equal
/// answers to every query: what a project answers depends on nothing but
/// the graph and the marker that it was handed.
pub proof fn lemma_equal_graphs_equal_answers(
    first: &Project,
    second: &Project,
    pattern: Seq<char>,
    kind: QueryKind,
)
    requires
        first.graph_model() == second.graph_model(),
        first.source_type() == second.source_type(),
    ensures
        project_query_result(first, pattern, kind) == project_query_result(second, pattern, kind),
{
}

impl Project {
    /// Queries the project's graph for the references to `pattern`, under
    /// the marker of the project's analysis mode. The marker is looked up
    /// in the graph by its symbol, so that the answer does not depend on
    /// the order in which the symbols of the graph were interned.
    pub fn query(&self, pattern: String, kind: QueryKind) -> (res: Result<
        Vec<ResultNode>,
        FindError,
    >)
        ensures
            find_outcome(res) == project_query_result(self, pattern@, kind),
    {
        let graph = match self.graph() {
            Some(x) => x,
            None => {
                return Err(FindError::GraphNotFound);
            },
        };
        let source_node_type_info = match self.get_source_type() {
            Some(x) => x,
            None => {
                return Err(FindError::SourceTypeNotFound);
            },
        };
        let located = source_node_type_info.locate_in(graph);
        let q = Querier { graph, source_type: &located, kind };
        match q.query(pattern) {
            Ok(results) => Ok(results),
            Err(e) => Err(FindError::Query(e)),
        }
    }
}

impl FindNode {
    /// Runs the search against the project's graph, under the marker of
    /// the project's analysis mode.
    pub fn run(self, project: &Project) -> (res: Result<Vec<ResultNode>, FindError>)
        ensures
            find_outcome(res) == find_result(project, self.regex@),
    {
        project.query(self.regex, QueryKind::All)
    }
}

} // verus!
