//! The in-memory symbol graph: an arena of nodes that refer to each other,
//! to their files and to their symbols by small integer handles.
//!
//! Handles count from 1. Node handles 1 and 2 are the root and the jump-to
//! sentinels of every graph.

use crate::c_sharp_graph::query::SyntaxType;
use crate::c_sharp_graph::results::Location;
use crate::text::views;
use vstd::prelude::*;

verus! {

/// The precedence that marks an edge as leading from a name to its parent
/// in the fully qualified name.
pub const FQN_PRECEDENCE: i32 = 10;

/// What a node does during path stitching.
#[derive(Debug, Clone, Copy, PartialEq, Eq, Structural)]
pub enum Node {
    /// A structural node without a symbol.
    Scope,
    /// Consumes a symbol.
    PopSymbol { symbol: usize, is_definition: bool },
    /// Pushes a symbol.
    PushSymbol { symbol: usize },
    /// The root sentinel.
    Root,
    /// The jump-to sentinel.
    JumpTo,
}

impl Node {
    /// The handle of the node's symbol, if it has one.
    pub open spec fn spec_symbol(self) -> Option<usize> {
        match self {
            Node::PopSymbol { symbol, .. } => Some(symbol),
            Node::PushSymbol { symbol } => Some(symbol),
            _ => None,
        }
    }

    /// The handle of the node's symbol, if it has one.
    #[verifier::when_used_as_spec(spec_symbol)]
    pub fn symbol(self) -> (s: Option<usize>)
        ensures
            s == self.spec_symbol(),
    {
        match self {
            Node::PopSymbol { symbol, .. } => Some(symbol),
            Node::PushSymbol { symbol } => Some(symbol),
            _ => None,
        }
    }

    /// Whether the node is one of the two sentinels.
    pub open spec fn is_sentinel(self) -> bool {
        self is Root || self is JumpTo
    }
}

/// A directed edge, as seen from its source.
#[derive(Debug, Clone, Copy, PartialEq, Eq, Structural)]
pub struct Edge {
    pub sink: usize,
    pub precedence: i32,
}

impl Edge {
    /// Whether the edge leads to the parent in the fully qualified name.
    pub open spec fn is_fqn(self) -> bool {
        self.precedence == FQN_PRECEDENCE
    }
}

/// Where a node comes from in its file, and what kind of syntax it is.
#[derive(Debug, Clone, Copy, PartialEq, Eq, Structural)]
pub struct SourceInfo {
    pub span: Location,
    pub syntax_type: Option<SyntaxType>,
}

/// Why the graph refused a change.
#[derive(Debug, Clone, Copy, PartialEq, Eq, Structural)]
pub enum GraphError {
    /// A handle does not name anything in this graph.
    UnknownHandle,
    /// The node already has an edge to its parent name.
    SecondFqnParent,
    /// A namespace, class or method node must carry a symbol.
    MissingSymbol,
    /// The file already has a compilation unit.
    SecondCompilationUnit,
    /// The parts do not make up a graph.
    Malformed,
}

/// Everything the graph holds about one node.
pub struct NodeRecord {
    pub node: Node,
    pub file: Option<usize>,
    pub source_info: Option<SourceInfo>,
    pub edges: Vec<Edge>,
}

/// A node as a mathematical value.
pub struct NodeModel {
    pub node: Node,
    pub file: Option<usize>,
    pub source_info: Option<SourceInfo>,
    pub edges: Seq<Edge>,
}

impl View for NodeRecord {
    type V = NodeModel;

    open spec fn view(&self) -> NodeModel {
        NodeModel {
            node: self.node,
            file: self.file,
            source_info: self.source_info,
            edges: self.edges@,
        }
    }
}

impl NodeModel {
    /// The node's syntax kind, if it has source information with a kind.
    pub open spec fn kind(self) -> Option<SyntaxType> {
        match self.source_info {
            Some(info) => info.syntax_type,
            None => None,
        }
    }

    /// Whether the node's kind must come with a symbol.
    pub open spec fn kind_needs_symbol(self) -> bool {
        self.kind() == Some(SyntaxType::NamespaceDeclaration) || self.kind() == Some(
            SyntaxType::ClassDef,
        ) || self.kind() == Some(SyntaxType::MethodName)
    }

    /// The node with one more edge, put in order of its sink.
    pub open spec fn with_edge(self, e: Edge) -> NodeModel {
        NodeModel { edges: sorted_insert(self.edges, e), ..self }
    }

    /// The node with its source information replaced.
    pub open spec fn with_source_info(self, info: SourceInfo) -> NodeModel {
        NodeModel { source_info: Some(info), ..self }
    }

    /// Whether the node is the compilation unit of its file.
    pub open spec fn is_comp_unit(self) -> bool {
        self.kind() == Some(SyntaxType::CompUnit)
    }
}

/// Whether the edges are in strictly ascending order of their sinks.
pub open spec fn edges_ascending(edges: Seq<Edge>) -> bool {
    forall|i: int, j: int| 0 <= i < j < edges.len() ==> edges[i].sink < edges[j].sink
}

/// Whether at most one of the edges leads to a parent name.
pub open spec fn at_most_one_fqn(edges: Seq<Edge>) -> bool {
    forall|i: int, j: int|
        0 <= i < edges.len() && 0 <= j < edges.len() && edges[i].is_fqn() && edges[j].is_fqn()
            ==> i == j
}

/// Whether no two positions of the sequence hold the same text.
pub open spec fn distinct(names: Seq<Seq<char>>) -> bool {
    forall|i: int, j: int| 0 <= i < j < names.len() ==> names[i] != names[j]
}

/// `edges` with `e` put in order of its sink; unchanged where an edge to
/// that sink is there already.
pub open spec fn sorted_insert(edges: Seq<Edge>, e: Edge) -> Seq<Edge>
    decreases edges.len(),
{
    if edges.len() == 0 {
        seq![e]
    } else if edges.last().sink < e.sink {
        edges.push(e)
    } else if edges.last().sink == e.sink {
        edges
    } else {
        sorted_insert(edges.drop_last(), e).push(edges.last())
    }
}

/// Whether one of the edges leads to `sink`.
pub open spec fn has_edge_to(edges: Seq<Edge>, sink: usize) -> bool {
    exists|i: int| 0 <= i < edges.len() && edges[i].sink == sink
}

/// Whether one of the edges leads to a parent name.
pub open spec fn has_fqn_edge(edges: Seq<Edge>) -> bool {
    exists|i: int| 0 <= i < edges.len() && edges[i].is_fqn()
}

/// Where every edge before `at` has a smaller sink and every edge from `at`
/// on a greater one, `e` is inserted at `at`.
pub proof fn lemma_sorted_insert_at(edges: Seq<Edge>, e: Edge, at: int)
    requires
        0 <= at <= edges.len(),
        forall|j: int| 0 <= j < at ==> edges[j].sink < e.sink,
        forall|j: int| at <= j < edges.len() ==> edges[j].sink > e.sink,
    ensures
        sorted_insert(edges, e) == edges.insert(at, e),
    decreases edges.len(),
{
    if edges.len() == 0 {
        assert(edges.insert(at, e) =~= seq![e]);
    } else if at == edges.len() {
        assert(edges.insert(at, e) =~= edges.push(e));
    } else {
        lemma_sorted_insert_at(edges.drop_last(), e, at);
        assert(edges.drop_last().insert(at, e).push(edges.last()) =~= edges.insert(at, e));
    }
}

/// Where the edges are in order and one of them leads to the sink of `e`,
/// inserting `e` changes nothing.
pub proof fn lemma_sorted_insert_present(edges: Seq<Edge>, e: Edge, at: int)
    requires
        edges_ascending(edges),
        0 <= at < edges.len(),
        edges[at].sink == e.sink,
    ensures
        sorted_insert(edges, e) == edges,
    decreases edges.len(),
{
    if at < edges.len() - 1 {
        assert(edges[at].sink < edges.last().sink);
        lemma_sorted_insert_present(edges.drop_last(), e, at);
        assert(edges.drop_last().push(edges.last()) =~= edges);
    }
}

/// A graph as a mathematical value.
pub struct GraphModel {
    /// The interned symbols; the symbol with handle `h` is `symbols[h - 1]`.
    pub symbols: Seq<Seq<char>>,
    /// The names of the files; the file with handle `h` is `files[h - 1]`.
    pub files: Seq<Seq<char>>,
    /// The nodes; the node with handle `h` is `nodes[h - 1]`.
    pub nodes: Seq<NodeModel>,
}

impl GraphModel {
    /// Whether `h` is the handle of a node.
    pub open spec fn valid_node(self, h: usize) -> bool {
        1 <= h <= self.nodes.len()
    }

    /// Whether `h` is the handle of a symbol.
    pub open spec fn valid_symbol(self, h: usize) -> bool {
        1 <= h <= self.symbols.len()
    }

    /// Whether `h` is the handle of a file.
    pub open spec fn valid_file(self, h: usize) -> bool {
        1 <= h <= self.files.len()
    }

    /// The node with handle `h`.
    pub open spec fn node(self, h: usize) -> NodeModel {
        self.nodes[h - 1]
    }

    /// The text of the symbol with handle `h`.
    pub open spec fn symbol(self, h: usize) -> Seq<char> {
        self.symbols[h - 1]
    }

    /// The name of the file with handle `h`.
    pub open spec fn file_name(self, h: usize) -> Seq<char> {
        self.files[h - 1]
    }

    /// The text of the symbol of node `h`, if the node has a symbol.
    pub open spec fn symbol_of(self, h: usize) -> Option<Seq<char>> {
        match self.node(h).node.spec_symbol() {
            Some(s) => Some(self.symbol(s)),
            None => None,
        }
    }

    /// What must hold of a single node.
    pub open spec fn node_wf(self, n: NodeModel) -> bool {
        &&& n.file is None <==> n.node.is_sentinel()
        &&& n.file matches Some(f) ==> self.valid_file(f)
        &&& n.node.spec_symbol() matches Some(s) ==> self.valid_symbol(s)
        &&& forall|i: int| 0 <= i < n.edges.len() ==> self.valid_node(#[trigger] n.edges[i].sink)
        &&& edges_ascending(n.edges)
        &&& at_most_one_fqn(n.edges)
        &&& n.kind_needs_symbol() ==> n.node.spec_symbol() is Some
    }

    /// Whether each file has at most one compilation unit.
    pub open spec fn one_comp_unit_per_file(self) -> bool {
        forall|i: int, j: int|
            0 <= i < self.nodes.len() && 0 <= j < self.nodes.len() && self.nodes[i].is_comp_unit()
                && self.nodes[j].is_comp_unit() && self.nodes[i].file == self.nodes[j].file ==> i
                == j
    }

    /// The invariant of the data model: every handle fits a machine word,
    /// symbols and file names are interned, every handle names something,
    /// the edges of a node are ordered by sink with at most one parent-name
    /// edge among them, namespace, class and method nodes carry a symbol,
    /// and no file has two compilation units.
    pub open spec fn wf(self) -> bool {
        &&& self.symbols.len() <= usize::MAX
        &&& self.files.len() <= usize::MAX
        &&& self.nodes.len() <= usize::MAX
        &&& distinct(self.symbols)
        &&& distinct(self.files)
        &&& forall|i: int| 0 <= i < self.nodes.len() ==> self.node_wf(#[trigger] self.nodes[i])
        &&& self.one_comp_unit_per_file()
    }
}

/// The views of a sequence of node records.
pub open spec fn node_views(nodes: Seq<NodeRecord>) -> Seq<NodeModel> {
    Seq::new(nodes.len(), |i: int| nodes[i]@)
}

/// Position of `name` in `names`, if it is there.
fn find_text(names: &Vec<String>, name: &str) -> (found: Option<usize>)
    ensures
        found matches Some(i) ==> i < names@.len() && names@[i as int]@ == name@,
        found is None ==> !views(names@).contains(name@),
{
    let mut i: usize = 0;
    while i < names.len()
        invariant
            0 <= i <= names@.len(),
            forall|j: int| 0 <= j < i ==> names@[j]@ != name@,
        decreases names.len() - i,
    {
        if *names[i].as_str() == *name {
            return Some(i);
        }
        i += 1;
    }
    assert forall|j: int| 0 <= j < views(names@).len() implies views(names@)[j] != name@ by {
        assert(views(names@)[j] == names@[j]@);
    }
    None
}

impl GraphModel {
    /// The graph that holds nothing but the two sentinels.
    pub open spec fn initial() -> GraphModel {
        GraphModel {
            symbols: Seq::empty(),
            files: Seq::empty(),
            nodes: seq![
                NodeModel { node: Node::Root, file: None, source_info: None, edges: Seq::empty() },
                NodeModel { node: Node::JumpTo, file: None, source_info: None, edges: Seq::empty() },
            ],
        }
    }

    /// The handle under which `text` is interned as a symbol, if it is.
    pub open spec fn symbol_handle(self, text: Seq<char>) -> Option<usize> {
        if self.symbols.contains(text) {
            Some((self.symbols.index_of(text) + 1) as usize)
        } else {
            None
        }
    }

    /// Why an edge cannot be added, if it cannot: an end of it is unknown,
    /// or it would be the second edge from its source to a parent name.
    pub open spec fn edge_refusal(self, source: usize, sink: usize, precedence: i32) -> Option<
        GraphError,
    > {
        if !self.valid_node(source) || !self.valid_node(sink) {
            Some(GraphError::UnknownHandle)
        } else if !has_edge_to(self.node(source).edges, sink) && precedence == FQN_PRECEDENCE
            && has_fqn_edge(self.node(source).edges) {
            Some(GraphError::SecondFqnParent)
        } else {
            None
        }
    }

    /// Whether another node in the file of `node` is a compilation unit.
    pub open spec fn has_other_comp_unit(self, node: usize) -> bool {
        exists|j: int|
            0 <= j < self.nodes.len() && j != node - 1 && self.nodes[j].is_comp_unit()
                && self.nodes[j].file == self.node(node).file
    }

    /// Why source information cannot be attached, if it cannot.
    pub open spec fn source_info_refusal(self, node: usize, info: SourceInfo) -> Option<
        GraphError,
    > {
        if !self.valid_node(node) {
            Some(GraphError::UnknownHandle)
        } else if self.node(node).with_source_info(info).kind_needs_symbol() && self.node(
            node,
        ).node.spec_symbol() is None {
            Some(GraphError::MissingSymbol)
        } else if info.syntax_type == Some(SyntaxType::CompUnit) && self.has_other_comp_unit(
            node,
        ) {
            Some(GraphError::SecondCompilationUnit)
        } else {
            None
        }
    }

    /// Whether a node with these contents can be added: the file and the
    /// symbol must be known, and the node must not be a sentinel.
    pub open spec fn accepts_node(self, file: usize, node: Node) -> bool {
        &&& self.valid_file(file)
        &&& !node.is_sentinel()
        &&& node.spec_symbol() matches Some(s) ==> self.valid_symbol(s)
    }

    /// The handle of the file called `name`, if the graph has it.
    pub open spec fn file_handle(self, name: Seq<char>) -> Option<usize> {
        if self.files.contains(name) {
            Some((self.files.index_of(name) + 1) as usize)
        } else {
            None
        }
    }
}

/// The symbol graph.
pub struct Graph {
    symbols: Vec<String>,
    files: Vec<String>,
    nodes: Vec<NodeRecord>,
}

/// The place at which the compilation unit of a file is recorded: the
/// file's own for a node with a file, the last for a node without.
pub open spec fn unit_slot(file: Option<usize>, file_count: usize) -> int {
    match file {
        Some(f) => f - 1,
        None => file_count as int,
    }
}

/// The model of a graph with the given parts.
pub open spec fn model_of(
    symbols: Seq<String>,
    files: Seq<String>,
    nodes: Seq<NodeRecord>,
) -> GraphModel {
    GraphModel { symbols: views(symbols), files: views(files), nodes: node_views(nodes) }
}

impl View for Graph {
    type V = GraphModel;

    closed spec fn view(&self) -> GraphModel {
        model_of(self.symbols@, self.files@, self.nodes@)
    }
}

impl Graph {
    #[verifier::type_invariant]
    spec fn well_formed(&self) -> bool {
        self@.wf()
    }

    /// A graph that holds the two sentinels and nothing else.
    pub fn new() -> (g: Graph)
        ensures
            g@ == GraphModel::initial(),
    {
        let mut nodes: Vec<NodeRecord> = Vec::new();
        nodes.push(NodeRecord { node: Node::Root, file: None, source_info: None, edges: Vec::new() });
        nodes.push(
            NodeRecord { node: Node::JumpTo, file: None, source_info: None, edges: Vec::new() },
        );
        let g = Graph { symbols: Vec::new(), files: Vec::new(), nodes };
        assert(g@.nodes =~= GraphModel::initial().nodes);
        assert(g@.symbols =~= GraphModel::initial().symbols);
        assert(g@.files =~= GraphModel::initial().files);
        g
    }

    /// Moves the nodes out and leaves the graph without any.
    fn take_nodes(&mut self) -> (nodes: Vec<NodeRecord>)
        ensures
            nodes == old(self).nodes,
            final(self).nodes@.len() == 0,
            final(self).symbols == old(self).symbols,
            final(self).files == old(self).files,
    {
        proof {
            use_type_invariant(&*self);
        }
        let mut nodes: Vec<NodeRecord> = Vec::new();
        std::mem::swap(&mut nodes, &mut self.nodes);
        nodes
    }

    /// Moves the symbols out of a graph without nodes.
    fn take_symbols(&mut self) -> (symbols: Vec<String>)
        requires
            old(self).nodes@.len() == 0,
        ensures
            symbols == old(self).symbols,
            final(self).symbols@.len() == 0,
            final(self).nodes@.len() == 0,
            final(self).files == old(self).files,
    {
        proof {
            use_type_invariant(&*self);
        }
        let mut symbols: Vec<String> = Vec::new();
        std::mem::swap(&mut symbols, &mut self.symbols);
        symbols
    }

    /// Moves the file names out of a graph without nodes.
    fn take_files(&mut self) -> (files: Vec<String>)
        requires
            old(self).nodes@.len() == 0,
        ensures
            files == old(self).files,
            final(self).files@.len() == 0,
            final(self).nodes@.len() == 0,
            final(self).symbols == old(self).symbols,
    {
        proof {
            use_type_invariant(&*self);
        }
        let mut files: Vec<String> = Vec::new();
        std::mem::swap(&mut files, &mut self.files);
        files
    }

    /// States the invariant of the data model for this graph.
    pub fn check(&self)
        ensures
            self@.wf(),
    {
        proof {
            use_type_invariant(self);
        }
    }

    /// Puts a graph together from its parts, where the parts keep to the
    /// invariant of the data model.
    pub(crate) fn from_parts(symbols: Vec<String>, files: Vec<String>, nodes: Vec<NodeRecord>) -> (res:
        Result<Graph, GraphError>)
        requires
            distinct(views(symbols@)),
            distinct(views(files@)),
        ensures
            res is Ok <==> model_of(symbols@, files@, nodes@).wf(),
            res matches Ok(g) ==> g@ == model_of(symbols@, files@, nodes@),
            res matches Err(e) ==> e == GraphError::Malformed,
    {
        let ghost g = model_of(symbols@, files@, nodes@);
        let symbol_count = symbols.len();
        let file_count = files.len();
        let node_count = nodes.len();
        // For each file, whether a compilation unit was seen in it; the
        // last place is for the nodes without a file.
        let mut unit_seen: Vec<bool> = Vec::new();
        let mut f: usize = 0;
        while f < file_count
            invariant
                0 <= f <= file_count,
                unit_seen@.len() == f,
                forall|j: int| 0 <= j < f ==> !unit_seen@[j],
            decreases file_count - f,
        {
            unit_seen.push(false);
            f += 1;
        }
        unit_seen.push(false);
        let mut k: usize = 0;
        while k < node_count
            invariant
                0 <= k <= node_count,
                g == model_of(symbols@, files@, nodes@),
                symbol_count == g.symbols.len(),
                file_count == g.files.len(),
                node_count == g.nodes.len(),
                node_count == nodes@.len(),
                unit_seen@.len() == file_count + 1,
                forall|i: int| 0 <= i < k ==> g.node_wf(#[trigger] g.nodes[i]),
                forall|i: int, j: int|
                    0 <= i < k && 0 <= j < k && g.nodes[i].is_comp_unit()
                        && g.nodes[j].is_comp_unit() && g.nodes[i].file == g.nodes[j].file ==> i
                        == j,
                forall|i: int|
                    0 <= i < k && g.nodes[i].is_comp_unit() ==> #[trigger] unit_seen@[unit_slot(
                        g.nodes[i].file,
                        file_count,
                    )],
                forall|s: int|
                    0 <= s <= file_count && #[trigger] unit_seen@[s] ==> exists|i: int|
                        0 <= i < k && g.nodes[i].is_comp_unit() && unit_slot(
                            g.nodes[i].file,
                            file_count,
                        ) == s,
            decreases node_count - k,
        {
            let record = &nodes[k];
            assert(record@ == g.nodes[k as int]);
            let is_sentinel = match record.node {
                Node::Root => true,
                Node::JumpTo => true,
                _ => false,
            };
            let slot = match record.file {
                None => {
                    if !is_sentinel {
                        return Err(GraphError::Malformed);
                    }
                    file_count
                },
                Some(file) => {
                    if is_sentinel || file < 1 || file > file_count {
                        return Err(GraphError::Malformed);
                    }
                    file - 1
                },
            };
            assert(slot == unit_slot(record.file, file_count));
            let has_symbol = match record.node.symbol() {
                Some(sym) => {
                    if sym < 1 || sym > symbol_count {
                        return Err(GraphError::Malformed);
                    }
                    true
                },
                None => false,
            };
            let mut parents: usize = 0;
            let mut e: usize = 0;
            while e < record.edges.len()
                invariant
                    0 <= e <= record.edges@.len(),
                    node_count == g.nodes.len(),
                    g == model_of(symbols@, files@, nodes@),
                    0 <= k < g.nodes.len(),
                    record@ == g.nodes[k as int],
                    parents == 1 ==> exists|i: int| 0 <= i < e && record.edges@[i].is_fqn(),
                    parents <= 1,
                    parents <= e,
                    forall|i: int| 0 <= i < e ==> g.valid_node(#[trigger] record.edges@[i].sink),
                    forall|i: int, j: int|
                        0 <= i < j < e ==> record.edges@[i].sink < record.edges@[j].sink,
                    forall|i: int, j: int|
                        0 <= i < e && 0 <= j < e && record.edges@[i].is_fqn()
                            && record.edges@[j].is_fqn() ==> i == j,
                    parents == 0 ==> forall|i: int| 0 <= i < e ==> !record.edges@[i].is_fqn(),
                decreases record.edges.len() - e,
            {
                let edge = record.edges[e];
                if edge.sink < 1 || edge.sink > node_count {
                    assert(!g.valid_node(record.edges@[e as int].sink));
                    assert(!g.node_wf(g.nodes[k as int]));
                    return Err(GraphError::Malformed);
                }
                if e > 0 && record.edges[e - 1].sink >= edge.sink {
                    assert(!edges_ascending(record.edges@));
                    assert(!g.node_wf(g.nodes[k as int]));
                    return Err(GraphError::Malformed);
                }
                if edge.precedence == FQN_PRECEDENCE {
                    if parents == 1 {
                        proof {
                            let i = choose|i: int| 0 <= i < e && record.edges@[i].is_fqn();
                            assert(record.edges@[i].is_fqn() && record.edges@[e as int].is_fqn());
                            assert(!at_most_one_fqn(record.edges@));
                            assert(!g.node_wf(g.nodes[k as int]));
                        }
                        return Err(GraphError::Malformed);
                    }
                    parents = 1;
                }
                proof {
                    assert forall|i: int, j: int| 0 <= i < j < e + 1 implies record.edges@[i].sink
                        < record.edges@[j].sink by {
                        if j == e && i < e - 1 {
                            assert(record.edges@[i].sink < record.edges@[e - 1].sink);
                        }
                    }
                }
                e += 1;
            }
            let kind = match record.source_info {
                Some(info) => info.syntax_type,
                None => None,
            };
            match kind {
                Some(SyntaxType::NamespaceDeclaration) | Some(SyntaxType::ClassDef) | Some(
                    SyntaxType::MethodName,
                ) => {
                    if !has_symbol {
                        return Err(GraphError::Malformed);
                    }
                },
                Some(SyntaxType::CompUnit) => {
                    if unit_seen[slot] {
                        proof {
                            let i = choose|i: int|
                                0 <= i < k && g.nodes[i].is_comp_unit() && unit_slot(
                                    g.nodes[i].file,
                                    file_count,
                                ) == slot;
                            assert(g.node_wf(g.nodes[i]));
                            assert(g.nodes[i].file == g.nodes[k as int].file);
                            assert(!g.one_comp_unit_per_file());
                        }
                        return Err(GraphError::Malformed);
                    }
                    proof {
                        assert forall|i: int|
                            0 <= i < k && g.nodes[i].is_comp_unit() implies g.nodes[i].file
                            != g.nodes[k as int].file by {
                            assert(unit_seen@[unit_slot(g.nodes[i].file, file_count)]);
                        }
                    }
                    unit_seen.set(slot, true);
                },
                _ => {},
            }
            assert(g.node_wf(g.nodes[k as int]));
            k += 1;
        }
        Ok(Graph { symbols, files, nodes })
    }

    /// The number of nodes; the handles `1..=node_count()` are the valid ones.
    pub fn node_count(&self) -> (n: usize)
        ensures
            n == self@.nodes.len(),
    {
        self.nodes.len()
    }

    /// The number of interned symbols.
    pub fn symbol_count(&self) -> (n: usize)
        ensures
            n == self@.symbols.len(),
    {
        self.symbols.len()
    }

    /// The number of files.
    pub fn file_count(&self) -> (n: usize)
        ensures
            n == self@.files.len(),
    {
        self.files.len()
    }

    /// The record of the node with handle `h`.
    pub fn node(&self, h: usize) -> (record: &NodeRecord)
        requires
            self@.valid_node(h),
        ensures
            record@ == self@.node(h),
            self@.node_wf(record@),
            self@.wf(),
    {
        proof {
            use_type_invariant(self);
        }
        &self.nodes[h - 1]
    }

    /// The text of the symbol with handle `h`.
    pub fn symbol(&self, h: usize) -> (text: &str)
        requires
            self@.valid_symbol(h),
        ensures
            text@ == self@.symbol(h),
    {
        self.symbols[h - 1].as_str()
    }

    /// The name of the file with handle `h`.
    pub fn file_name(&self, h: usize) -> (name: &str)
        requires
            self@.valid_file(h),
        ensures
            name@ == self@.file_name(h),
    {
        self.files[h - 1].as_str()
    }

    /// The handle of the file called `name`, if the graph has it.
    pub fn get_file(&self, name: &str) -> (found: Option<usize>)
        ensures
            found == self@.file_handle(name@),
            found matches Some(h) ==> self@.valid_file(h) && self@.file_name(h) == name@,
    {
        proof {
            use_type_invariant(self);
        }
        match find_text(&self.files, name) {
            Some(i) => {
                proof {
                    lemma_index_of_distinct(self@.files, i as int);
                }
                assert(i < self.files.len());
                Some(i + 1)
            },
            None => None,
        }
    }

    /// The handle under which `text` is interned as a symbol, if it is.
    pub fn get_symbol(&self, text: &str) -> (found: Option<usize>)
        ensures
            found == self@.symbol_handle(text@),
            found matches Some(h) ==> self@.valid_symbol(h) && self@.symbol(h) == text@,
    {
        proof {
            use_type_invariant(self);
        }
        match find_text(&self.symbols, text) {
            Some(i) => {
                proof {
                    lemma_index_of_distinct(self@.symbols, i as int);
                }
                assert(i < self.symbols.len());
                Some(i + 1)
            },
            None => None,
        }
    }

    /// Adds a file. File names are unique: where the name is taken already,
    /// the graph stays as it is and the error holds the handle of the file
    /// that has it.
    pub fn add_file(&mut self, name: &str) -> (res: Result<usize, usize>)
        ensures
            final(self)@.symbols == old(self)@.symbols,
            final(self)@.nodes == old(self)@.nodes,
            match res {
                Ok(h) => {
                    &&& old(self)@.file_handle(name@) is None
                    &&& final(self)@.files == old(self)@.files.push(name@)
                    &&& h == old(self)@.files.len() + 1
                },
                Err(h) => {
                    &&& old(self)@.file_handle(name@) == Some(h)
                    &&& final(self)@.files == old(self)@.files
                },
            },
    {
        proof {
            use_type_invariant(&*self);
        }
        match self.get_file(name) {
            Some(h) => Err(h),
            None => {
                let ghost before = self@;
                let nodes = self.take_nodes();
                let mut files = self.take_files();
                files.push(name.to_owned());
                assert(files.len() <= usize::MAX);
                proof {
                    assert(views(files@) =~= before.files.push(name@));
                    lemma_distinct_push(before.files, name@);
                    assert(model_of(self.symbols@, files@, self.nodes@).nodes =~= Seq::empty());
                }
                self.files = files;
                proof {
                    let after = model_of(self.symbols@, self.files@, nodes@);
                    assert(after.nodes =~= before.nodes);
                    assert forall|i: int| 0 <= i < after.nodes.len() implies after.node_wf(
                        #[trigger] after.nodes[i],
                    ) by {
                        assert(before.node_wf(before.nodes[i]));
                    }
                }
                self.nodes = nodes;
                Ok(self.files.len())
            },
        }
    }

    /// Adds a node to a file and returns its handle. The new node has no
    /// edges and no source information. Sentinels cannot be added, and the
    /// file and the symbol of the node must be known to the graph.
    pub fn add_node(&mut self, file: usize, node: Node) -> (res: Result<usize, GraphError>)
        ensures
            final(self)@.symbols == old(self)@.symbols,
            final(self)@.files == old(self)@.files,
            res is Ok <==> old(self)@.accepts_node(file, node),
            match res {
                Ok(h) => {
                    &&& h == old(self)@.nodes.len() + 1
                    &&& final(self)@.nodes == old(self)@.nodes.push(
                        NodeModel { node, file: Some(file), source_info: None, edges: Seq::empty() },
                    )
                },
                Err(e) => e == GraphError::UnknownHandle && final(self)@ == old(self)@,
            },
    {
        proof {
            use_type_invariant(&*self);
        }
        if file < 1 || file > self.files.len() {
            return Err(GraphError::UnknownHandle);
        }
        match node {
            Node::Root => {
                return Err(GraphError::UnknownHandle);
            },
            Node::JumpTo => {
                return Err(GraphError::UnknownHandle);
            },
            _ => {},
        }
        match node.symbol() {
            Some(s) => {
                if s < 1 || s > self.symbols.len() {
                    return Err(GraphError::UnknownHandle);
                }
            },
            None => {},
        }
        let ghost before = self@;
        let ghost added = NodeModel {
            node,
            file: Some(file),
            source_info: None,
            edges: Seq::empty(),
        };
        let mut nodes = self.take_nodes();
        nodes.push(NodeRecord { node, file: Some(file), source_info: None, edges: Vec::new() });
        assert(nodes.len() <= usize::MAX);
        proof {
            let after = model_of(self.symbols@, self.files@, nodes@);
            assert(after.nodes =~= before.nodes.push(added));
            assert forall|i: int| 0 <= i < after.nodes.len() implies after.node_wf(
                #[trigger] after.nodes[i],
            ) by {
                if i < before.nodes.len() {
                    assert(before.node_wf(before.nodes[i]));
                }
            }
        }
        self.nodes = nodes;
        Ok(self.nodes.len())
    }

    /// Adds an edge from `source` to `sink`. A node has at most one edge to
    /// any sink: where one is there already, nothing changes. A second edge
    /// to a parent name is refused.
    pub fn add_edge(&mut self, source: usize, sink: usize, precedence: i32) -> (res: Result<
        (),
        GraphError,
    >)
        ensures
            final(self)@.symbols == old(self)@.symbols,
            final(self)@.files == old(self)@.files,
            res == match old(self)@.edge_refusal(source, sink, precedence) {
                Some(e) => Err(e),
                None => Ok(()),
            },
            final(self)@.nodes == match res {
                Ok(_) => old(self)@.nodes.update(
                    source - 1,
                    old(self)@.node(source).with_edge(Edge { sink, precedence }),
                ),
                Err(_) => old(self)@.nodes,
            },
    {
        proof {
            use_type_invariant(&*self);
        }
        if source < 1 || source > self.nodes.len() || sink < 1 || sink > self.nodes.len() {
            return Err(GraphError::UnknownHandle);
        }
        let ghost before = self@;
        let ghost old_edges = before.node(source).edges;
        let e = Edge { sink, precedence };
        assert(before.node_wf(before.nodes[source - 1]));
        // Find the place of the sink among the edges, and the parent-name
        // edge if there is one.
        let edges = &self.nodes[source - 1].edges;
        let mut at: usize = 0;
        let mut has_parent = false;
        let mut i: usize = 0;
        while i < edges.len()
            invariant
                0 <= i <= edges@.len(),
                edges@ == old_edges,
                edges_ascending(old_edges),
                0 <= at <= i,
                forall|j: int| 0 <= j < at ==> old_edges[j].sink < sink,
                forall|j: int| at <= j < i ==> old_edges[j].sink >= sink,
                has_parent <==> exists|j: int| 0 <= j < i && old_edges[j].is_fqn(),
            decreases edges.len() - i,
        {
            if edges[i].sink < sink {
                at = i + 1;
            }
            if edges[i].precedence == FQN_PRECEDENCE {
                has_parent = true;
            }
            i += 1;
        }
        if at < edges.len() && edges[at].sink == sink {
            proof {
                lemma_sorted_insert_present(old_edges, e, at as int);
                assert(before.node(source).with_edge(e) == before.node(source));
                assert(before.nodes.update(source - 1, before.node(source)) =~= before.nodes);
            }
            return Ok(());
        }
        proof {
            assert(!has_edge_to(old_edges, sink)) by {
                if has_edge_to(old_edges, sink) {
                    let j = choose|j: int| 0 <= j < old_edges.len() && old_edges[j].sink == sink;
                    if j > at {
                        assert(old_edges[at as int].sink < old_edges[j].sink);
                    }
                }
            }
        }
        if precedence == FQN_PRECEDENCE && has_parent {
            return Err(GraphError::SecondFqnParent);
        }
        proof {
            assert forall|j: int| at <= j < old_edges.len() implies old_edges[j].sink > sink by {
                if j > at {
                    assert(old_edges[at as int].sink < old_edges[j].sink);
                }
            }
            lemma_sorted_insert_at(old_edges, e, at as int);
        }
        let mut nodes = self.take_nodes();
        let mut edges: Vec<Edge> = Vec::new();
        std::mem::swap(&mut edges, &mut nodes[source - 1].edges);
        edges.insert(at, e);
        std::mem::swap(&mut edges, &mut nodes[source - 1].edges);
        proof {
            let after = model_of(self.symbols@, self.files@, nodes@);
            let changed = before.node(source).with_edge(e);
            assert(changed.edges == old_edges.insert(at as int, e));
            assert(after.nodes =~= before.nodes.update(source - 1, changed));
            assert forall|k: int| 0 <= k < after.nodes.len() implies after.node_wf(
                #[trigger] after.nodes[k],
            ) by {
                assert(before.node_wf(before.nodes[k]));
                if k == source - 1 {
                    let es = changed.edges;
                    assert forall|a: int| 0 <= a < es.len() implies after.valid_node(
                        #[trigger] es[a].sink,
                    ) by {
                        if a < at {
                            assert(es[a] == old_edges[a]);
                        } else if a > at {
                            assert(es[a] == old_edges[a - 1]);
                        }
                    }
                    assert forall|a: int, b: int| 0 <= a < b < es.len() implies es[a].sink
                        < es[b].sink by {
                        let x = if a < at { a } else { a - 1 };
                        let y = if b < at { b } else { b - 1 };
                        if a != at && b != at {
                            assert(old_edges[x].sink < old_edges[y].sink);
                        }
                    }
                    assert forall|a: int, b: int|
                        0 <= a < es.len() && 0 <= b < es.len() && es[a].is_fqn()
                            && es[b].is_fqn() implies a == b by {
                        let x = if a < at { a } else { a - 1 };
                        let y = if b < at { b } else { b - 1 };
                        if a != at && b != at {
                            assert(old_edges[x].is_fqn() && old_edges[y].is_fqn());
                        } else if a != at {
                            assert(old_edges[x].is_fqn());
                        } else if b != at {
                            assert(old_edges[y].is_fqn());
                        }
                    }
                }
            }
            assert forall|a: int, b: int|
                0 <= a < after.nodes.len() && 0 <= b < after.nodes.len()
                    && after.nodes[a].is_comp_unit() && after.nodes[b].is_comp_unit()
                    && after.nodes[a].file == after.nodes[b].file implies a == b by {
                assert(before.nodes[a].is_comp_unit() && before.nodes[b].is_comp_unit());
            }
        }
        self.nodes = nodes;
        Ok(())
    }

    /// Attaches source information to a node, replacing what it had. A
    /// namespace, class or method kind is refused on a node without a
    /// symbol, and a compilation unit is refused where the file of the node
    /// has another one.
    pub fn set_source_info(&mut self, node: usize, info: SourceInfo) -> (res: Result<
        (),
        GraphError,
    >)
        ensures
            final(self)@.symbols == old(self)@.symbols,
            final(self)@.files == old(self)@.files,
            res == match old(self)@.source_info_refusal(node, info) {
                Some(e) => Err(e),
                None => Ok(()),
            },
            final(self)@.nodes == match res {
                Ok(_) => old(self)@.nodes.update(
                    node - 1,
                    old(self)@.node(node).with_source_info(info),
                ),
                Err(_) => old(self)@.nodes,
            },
    {
        proof {
            use_type_invariant(&*self);
        }
        if node < 1 || node > self.nodes.len() {
            return Err(GraphError::UnknownHandle);
        }
        let ghost before = self@;
        let ghost changed = before.node(node).with_source_info(info);
        assert(before.node_wf(before.nodes[node - 1]));
        let file = self.nodes[node - 1].file;
        let has_symbol = self.nodes[node - 1].node.symbol().is_some();
        match info.syntax_type {
            Some(SyntaxType::NamespaceDeclaration) | Some(SyntaxType::ClassDef) | Some(
                SyntaxType::MethodName,
            ) => {
                if !has_symbol {
                    return Err(GraphError::MissingSymbol);
                }
            },
            Some(SyntaxType::CompUnit) => {
                let mut i: usize = 0;
                while i < self.nodes.len()
                    invariant
                        0 <= i <= self.nodes@.len(),
                        self@ == before,
                        before.valid_node(node),
                        file == before.node(node).file,
                        info.syntax_type == Some(SyntaxType::CompUnit),
                        forall|j: int|
                            0 <= j < i && j != node - 1 ==> !(before.nodes[j].is_comp_unit()
                                && before.nodes[j].file == file),
                    decreases self.nodes.len() - i,
                {
                    if i != node - 1 {
                        let other = &self.nodes[i];
                        assert(other@ == before.nodes[i as int]);
                        let same_file = match (other.file, file) {
                            (Some(a), Some(b)) => a == b,
                            (None, None) => true,
                            _ => false,
                        };
                        let is_unit = match other.source_info {
                            Some(si) => match si.syntax_type {
                                Some(SyntaxType::CompUnit) => true,
                                _ => false,
                            },
                            None => false,
                        };
                        if same_file && is_unit {
                            assert(before.has_other_comp_unit(node)) by {
                                assert(before.nodes[i as int].is_comp_unit());
                            }
                            return Err(GraphError::SecondCompilationUnit);
                        }
                    }
                    i += 1;
                }
            },
            _ => {},
        }
        let mut nodes = self.take_nodes();
        nodes[node - 1].source_info = Some(info);
        proof {
            let after = model_of(self.symbols@, self.files@, nodes@);
            assert(after.nodes =~= before.nodes.update(node - 1, changed));
            assert forall|k: int| 0 <= k < after.nodes.len() implies after.node_wf(
                #[trigger] after.nodes[k],
            ) by {
                assert(before.node_wf(before.nodes[k]));
            }
            assert forall|a: int, b: int|
                0 <= a < after.nodes.len() && 0 <= b < after.nodes.len()
                    && after.nodes[a].is_comp_unit() && after.nodes[b].is_comp_unit()
                    && after.nodes[a].file == after.nodes[b].file implies a == b by {
                if a != node - 1 && b != node - 1 {
                    assert(before.nodes[a].is_comp_unit() && before.nodes[b].is_comp_unit());
                }
            }
        }
        self.nodes = nodes;
        Ok(())
    }

    /// Interns `symbol` and returns its handle. Equal texts share a handle,
    /// and a new text gets the next free one.
    pub fn add_symbol(&mut self, symbol: &str) -> (h: usize)
        ensures
            final(self)@.files == old(self)@.files,
            final(self)@.nodes == old(self)@.nodes,
            final(self)@.symbols == if old(self)@.symbols.contains(symbol@) {
                old(self)@.symbols
            } else {
                old(self)@.symbols.push(symbol@)
            },
            final(self)@.symbol_handle(symbol@) == Some(h),
    {
        proof {
            use_type_invariant(&*self);
        }
        match find_text(&self.symbols, symbol) {
            Some(i) => {
                proof {
                    lemma_index_of_distinct(self@.symbols, i as int);
                }
                assert(i < self.symbols.len());
                i + 1
            },
            None => {
                let ghost before = self@;
                let nodes = self.take_nodes();
                let mut symbols = self.take_symbols();
                symbols.push(symbol.to_owned());
                assert(symbols.len() <= usize::MAX);
                proof {
                    assert(views(symbols@) =~= before.symbols.push(symbol@));
                    lemma_distinct_push(before.symbols, symbol@);
                    assert(model_of(symbols@, self.files@, self.nodes@).nodes =~= Seq::empty());
                }
                self.symbols = symbols;
                proof {
                    let after = model_of(self.symbols@, self.files@, nodes@);
                    assert(after.nodes =~= before.nodes);
                    assert forall|i: int| 0 <= i < after.nodes.len() implies after.node_wf(
                        #[trigger] after.nodes[i],
                    ) by {
                        assert(before.node_wf(before.nodes[i]));
                    }
                }
                self.nodes = nodes;
                proof {
                    assert(self@.symbols =~= before.symbols.push(symbol@));
                    lemma_index_of_distinct(self@.symbols, before.symbols.len() as int);
                }
                self.symbols.len()
            },
        }
    }
}

/// A text that is new to a sequence without repeats can be appended to it.
pub proof fn lemma_distinct_push(names: Seq<Seq<char>>, name: Seq<char>)
    requires
        distinct(names),
        !names.contains(name),
    ensures
        distinct(names.push(name)),
{
    let longer = names.push(name);
    assert forall|i: int, j: int| 0 <= i < j < longer.len() implies longer[i] != longer[j] by {
        if j == names.len() {
            assert(names.contains(names[i]));
        }
    }
}

/// In a sequence without repeats, `index_of` gives back each position.
pub proof fn lemma_index_of_distinct(names: Seq<Seq<char>>, i: int)
    requires
        distinct(names),
        0 <= i < names.len(),
    ensures
        names.contains(names[i]),
        names.index_of(names[i]) == i,
{
    let j = names.index_of(names[i]);
    assert(names.contains(names[i]));
    if j < i {
        assert(names[j] != names[i]);
    } else if i < j {
        assert(names[i] != names[j]);
    }
}

impl GraphModel {
    /// Whether the `i`-th edge of `from` is an ordinary edge, one that does
    /// not lead to a parent name.
    pub open spec fn ordinary_edge(self, from: usize, i: int) -> bool {
        0 <= i < self.node(from).edges.len() && !self.node(from).edges[i].is_fqn()
    }

    /// Whether `to` can be reached from `from` along at least one and at
    /// most `fuel` ordinary edges.
    pub open spec fn reaches(self, from: usize, to: usize, fuel: nat) -> bool
        decreases fuel,
    {
        fuel > 0 && exists|i: int| #[trigger]
            self.ordinary_edge(from, i) && (self.node(from).edges[i].sink == to || self.reaches(
                self.node(from).edges[i].sink,
                to,
                (fuel - 1) as nat,
            ))
    }

    /// Whether a walk that starts with the `i`-th edge of `from` and takes
    /// at most `fuel` ordinary edges in all can end in `to`.
    pub open spec fn reaches_via(self, from: usize, i: int, to: usize, fuel: nat) -> bool {
        fuel > 0 && self.ordinary_edge(from, i) && (self.node(from).edges[i].sink == to
            || self.reaches(self.node(from).edges[i].sink, to, (fuel - 1) as nat))
    }

    /// A node is reached exactly when it is reached through one of the
    /// edges of the start.
    pub proof fn lemma_reaches(self, from: usize, to: usize, fuel: nat)
        ensures
            self.reaches(from, to, fuel) <==> exists|i: int| #[trigger]
                self.reaches_via(from, i, to, fuel),
    {
        if self.reaches(from, to, fuel) {
            let i = choose|i: int| #[trigger]
                self.ordinary_edge(from, i) && (self.node(from).edges[i].sink == to
                    || self.reaches(self.node(from).edges[i].sink, to, (fuel - 1) as nat));
            assert(self.reaches_via(from, i, to, fuel));
        }
        if exists|i: int| #[trigger] self.reaches_via(from, i, to, fuel) {
            let i = choose|i: int| #[trigger] self.reaches_via(from, i, to, fuel);
            assert(self.ordinary_edge(from, i));
        }
    }

    /// Whether every walk along ordinary edges that starts in `from` ends
    /// after at most `fuel` edges.
    pub open spec fn bounded(self, from: usize, fuel: nat) -> bool
        decreases fuel,
    {
        forall|i: int| #[trigger]
            self.ordinary_edge(from, i) ==> fuel > 0 && self.bounded(
                self.node(from).edges[i].sink,
                (fuel - 1) as nat,
            )
    }
}

} // verus!
