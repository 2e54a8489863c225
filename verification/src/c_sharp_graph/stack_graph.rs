//! Reading a graph that the `stack_graphs` crate built: its symbols, files,
//! nodes and edges are copied into a symbol graph of this crate, handle for
//! handle.

use crate::c_sharp_graph::graph::{
    distinct, Edge, Graph, GraphError, GraphModel, Node, NodeModel, NodeRecord, SourceInfo,
};
use crate::c_sharp_graph::query::{syntax_type_of, SyntaxType};
use crate::c_sharp_graph::results::{Location, Position};
use crate::text::views;
use stack_graphs::graph::StackGraph;
use vstd::prelude::*;

verus! {

/// `stack_graphs::graph::StackGraph`. Nothing is known of its inside; what
/// it holds is read through the functions below.
#[verifier::external_type_specification]
#[verifier::external_body]
pub struct ExStackGraph(stack_graphs::graph::StackGraph);

/// The symbols of a stack graph, in the order of their handles.
pub uninterp spec fn graph_symbols(sg: StackGraph) -> Seq<Seq<char>>;

/// The names of the files of a stack graph, in the order of their handles.
pub uninterp spec fn graph_files(sg: StackGraph) -> Seq<Seq<char>>;

/// What each node of a stack graph does, in the order of the node handles.
pub uninterp spec fn graph_node_kinds(sg: StackGraph) -> Seq<Node>;

/// The handle of the file of each node of a stack graph.
pub uninterp spec fn graph_node_files(sg: StackGraph) -> Seq<Option<usize>>;

/// The source information of each node of a stack graph that has some: its
/// span, and its syntax tag if it has one.
pub uninterp spec fn graph_node_sources(sg: StackGraph) -> Seq<
    Option<(Location, Option<Seq<char>>)>,
>;

/// The outgoing edges of each node of a stack graph, in the order in which
/// the graph hands them out.
pub uninterp spec fn graph_node_edges(sg: StackGraph) -> Seq<Seq<Edge>>;

/// Walks `StackGraph::iter_symbols` and copies the text of each symbol. The
/// crate keeps one symbol for each text.
#[verifier::external_body]
fn symbol_texts(sg: &StackGraph) -> (texts: Vec<String>)
    ensures
        views(texts@) == graph_symbols(*sg),
        distinct(views(texts@)),
{
    sg.iter_symbols().map(|h| sg[h].to_string()).collect()
}

/// Walks `StackGraph::iter_files` and copies the name of each file. The
/// crate keeps one file for each name.
#[verifier::external_body]
fn file_names(sg: &StackGraph) -> (names: Vec<String>)
    ensures
        views(names@) == graph_files(*sg),
        distinct(views(names@)),
{
    sg.iter_files().map(|h| sg[h].name().to_string()).collect()
}

/// Walks `StackGraph::iter_nodes` and tells the variants of the crate's
/// nodes apart. Scoped symbols count as symbols, and a node that drops
/// scopes counts as a scope.
#[verifier::external_body]
fn node_kinds(sg: &StackGraph) -> (kinds: Vec<Node>)
    ensures
        kinds@ == graph_node_kinds(*sg),
{
    sg.iter_nodes().map(|h| match &sg[h] {
        stack_graphs::graph::Node::Root(_) => Node::Root,
        stack_graphs::graph::Node::JumpTo(_) => Node::JumpTo,
        stack_graphs::graph::Node::Scope(_) => Node::Scope,
        stack_graphs::graph::Node::DropScopes(_) => Node::Scope,
        stack_graphs::graph::Node::PopSymbol(n) => Node::PopSymbol { symbol: n.symbol.as_usize(), is_definition: n.is_definition },
        stack_graphs::graph::Node::PopScopedSymbol(n) => Node::PopSymbol { symbol: n.symbol.as_usize(), is_definition: n.is_definition },
        stack_graphs::graph::Node::PushSymbol(n) => Node::PushSymbol { symbol: n.symbol.as_usize() },
        stack_graphs::graph::Node::PushScopedSymbol(n) => Node::PushSymbol { symbol: n.symbol.as_usize() },
    }).collect()
}

/// Walks `StackGraph::iter_nodes` and asks each node for its file.
#[verifier::external_body]
fn node_files(sg: &StackGraph) -> (files: Vec<Option<usize>>)
    ensures
        files@ == graph_node_files(*sg),
{
    sg.iter_nodes().map(|h| sg[h].file().map(|f| f.as_usize())).collect()
}

/// Walks `StackGraph::iter_nodes` and copies what `StackGraph::source_info`
/// has for each node: the span, in lines and in columns as UTF-8 offsets,
/// and the text of the syntax tag where one is set.
#[verifier::external_body]
fn node_sources(sg: &StackGraph) -> (sources: Vec<Option<(Location, Option<String>)>>)
    ensures
        source_views(sources@) == graph_node_sources(*sg),
{
    sg.iter_nodes().map(|h| sg.source_info(h).map(|info| (
        Location {
            start_position: Position { line: info.span.start.line, character: info.span.start.column.utf8_offset },
            end_position: Position { line: info.span.end.line, character: info.span.end.column.utf8_offset },
        },
        info.syntax_type.into_option().map(|t| sg[t].to_string()),
    ))).collect()
}

/// Walks `StackGraph::iter_nodes` and copies what
/// `StackGraph::outgoing_edges` hands out for each node.
#[verifier::external_body]
fn node_edges(sg: &StackGraph) -> (edges: Vec<Vec<Edge>>)
    ensures
        edge_views(edges@) == graph_node_edges(*sg),
{
    sg.iter_nodes().map(|h| sg.outgoing_edges(h).map(|e| Edge { sink: e.sink.as_usize(), precedence: e.precedence }).collect()).collect()
}

/// The view of what is known of the source of a node.
pub open spec fn source_view(source: Option<(Location, Option<String>)>) -> Option<
    (Location, Option<Seq<char>>),
> {
    match source {
        Some((span, tag)) => Some((span, crate::c_sharp_graph::query::opt_view(tag))),
        None => None,
    }
}

/// The views of a sequence of node sources.
pub open spec fn source_views(sources: Seq<Option<(Location, Option<String>)>>) -> Seq<
    Option<(Location, Option<Seq<char>>)>,
> {
    Seq::new(sources.len(), |i: int| source_view(sources[i]))
}

/// The views of a sequence of edge lists.
pub open spec fn edge_views(edges: Seq<Vec<Edge>>) -> Seq<Seq<Edge>> {
    Seq::new(edges.len(), |i: int| edges[i]@)
}

/// The source information of a node, with the kind that its tag names.
pub open spec fn source_info_of(source: Option<(Location, Option<Seq<char>>)>) -> Option<
    SourceInfo,
> {
    match source {
        None => None,
        Some((span, tag)) => Some(
            SourceInfo {
                span,
                syntax_type: match tag {
                    Some(t) => Some(syntax_type_of(t)),
                    None => None,
                },
            },
        ),
    }
}

/// Whether a stack graph says the same number of things about its nodes
/// in every respect.
pub open spec fn rows_agree(sg: StackGraph) -> bool {
    let n = graph_node_kinds(sg).len();
    &&& graph_node_files(sg).len() == n
    &&& graph_node_sources(sg).len() == n
    &&& graph_node_edges(sg).len() == n
}

/// A stack graph as a symbol graph of this crate: the same symbols, files
/// and nodes under the same handles.
pub open spec fn stack_graph_model(sg: StackGraph) -> GraphModel {
    GraphModel {
        symbols: graph_symbols(sg),
        files: graph_files(sg),
        nodes: Seq::new(
            graph_node_kinds(sg).len(),
            |i: int|
                NodeModel {
                    node: graph_node_kinds(sg)[i],
                    file: graph_node_files(sg)[i],
                    source_info: source_info_of(graph_node_sources(sg)[i]),
                    edges: graph_node_edges(sg)[i],
                },
        ),
    }
}

impl Graph {
    /// Copies a stack graph. Every symbol, file and node keeps its handle.
    /// A stack graph that does not keep to the invariant of the data model
    /// is refused.
    pub fn from_stack_graph(sg: &StackGraph) -> (res: Result<Graph, GraphError>)
        ensures
            res is Ok <==> rows_agree(*sg) && stack_graph_model(*sg).wf(),
            res matches Ok(g) ==> g@ == stack_graph_model(*sg),
            res matches Err(e) ==> e == GraphError::Malformed,
    {
        let symbols = symbol_texts(sg);
        let files = file_names(sg);
        let kinds = node_kinds(sg);
        let node_file = node_files(sg);
        let sources = node_sources(sg);
        let edges = node_edges(sg);
        let n = kinds.len();
        if node_file.len() != n || sources.len() != n || edges.len() != n {
            return Err(GraphError::Malformed);
        }
        let ghost expected = stack_graph_model(*sg);
        let mut nodes: Vec<NodeRecord> = Vec::new();
        let mut i: usize = 0;
        while i < n
            invariant
                0 <= i <= n,
                n == kinds@.len(),
                node_file@.len() == n,
                sources@.len() == n,
                edges@.len() == n,
                kinds@ == graph_node_kinds(*sg),
                node_file@ == graph_node_files(*sg),
                source_views(sources@) == graph_node_sources(*sg),
                edge_views(edges@) == graph_node_edges(*sg),
                expected == stack_graph_model(*sg),
                nodes@.len() == i,
                forall|k: int| 0 <= k < i ==> (#[trigger] nodes@[k])@ == expected.nodes[k],
            decreases n - i,
        {
            let source_info = match &sources[i] {
                None => None,
                Some((span, tag)) => Some(
                    SourceInfo {
                        span: *span,
                        syntax_type: match tag {
                            Some(t) => Some(SyntaxType::get(t.as_str())),
                            None => None,
                        },
                    },
                ),
            };
            let from = &edges[i];
            let mut copied: Vec<Edge> = Vec::new();
            let mut k: usize = 0;
            while k < from.len()
                invariant
                    0 <= k <= from@.len(),
                    copied@ == from@.take(k as int),
                decreases from.len() - k,
            {
                copied.push(from[k]);
                assert(copied@ =~= from@.take(k + 1));
                k += 1;
            }
            proof {
                assert(from@.take(k as int) =~= from@);
                assert(source_views(sources@)[i as int] == source_view(sources@[i as int]));
                assert(edge_views(edges@)[i as int] == edges@[i as int]@);
            }
            nodes.push(
                NodeRecord { node: kinds[i], file: node_file[i], source_info, edges: copied },
            );
            i += 1;
        }
        proof {
            assert(crate::c_sharp_graph::graph::node_views(nodes@) =~= expected.nodes);
        }
        Graph::from_parts(symbols, files, nodes)
    }
}

} // verus!
