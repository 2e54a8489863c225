//! The query evaluator.

use crate::c_sharp_graph::graph::{
    has_edge_to, has_fqn_edge, Edge, Graph, GraphModel, FQN_PRECEDENCE,
};
use crate::c_sharp_graph::loader::SourceType;
use crate::c_sharp_graph::method_query::{fqdn_items, resolves, MethodModel, MethodSymbols};
use crate::c_sharp_graph::namespace_query::{names_below_roots, NamespaceModel, NamespaceSymbols};
use crate::c_sharp_graph::walk::{all_below_roots, collect_below_roots, roots_bounded};
use crate::c_sharp_graph::pattern::{compilable, prefix_matches, PatternError, Search};
use crate::c_sharp_graph::results::{incident, result_views, ResultModel, ResultNode};
use crate::text::split_on;
use vstd::prelude::*;
use vstd::string::StringExecFns;

verus! {

/// The kind of syntax that a graph node stands for.
#[derive(Debug, Clone, Copy, PartialEq, Eq, Structural)]
pub enum SyntaxType {
    Import,
    CompUnit,
    NamespaceDeclaration,
    ClassDef,
    MethodName,
    LocalVar,
    Argument,
    Name,
}

/// The kind that a tag names. Any tag outside the known set counts as a
/// plain name.
pub open spec fn syntax_type_of(tag: Seq<char>) -> SyntaxType {
    if tag == "import"@ {
        SyntaxType::Import
    } else if tag == "comp_unit"@ {
        SyntaxType::CompUnit
    } else if tag == "namespace_declaration"@ {
        SyntaxType::NamespaceDeclaration
    } else if tag == "class_def"@ {
        SyntaxType::ClassDef
    } else if tag == "method_name"@ {
        SyntaxType::MethodName
    } else if tag == "local_var"@ {
        SyntaxType::LocalVar
    } else if tag == "argument"@ {
        SyntaxType::Argument
    } else {
        SyntaxType::Name
    }
}

impl SyntaxType {
    /// Reads a kind from its tag.
    pub fn get(syntax_type_string: &str) -> (kind: Self)
        ensures
            kind == syntax_type_of(syntax_type_string@),
    {
        if *syntax_type_string == *"import" {
            Self::Import
        } else if *syntax_type_string == *"comp_unit" {
            Self::CompUnit
        } else if *syntax_type_string == *"namespace_declaration" {
            Self::NamespaceDeclaration
        } else if *syntax_type_string == *"class_def" {
            Self::ClassDef
        } else if *syntax_type_string == *"method_name" {
            Self::MethodName
        } else if *syntax_type_string == *"local_var" {
            Self::LocalVar
        } else if *syntax_type_string == *"argument" {
            Self::Argument
        } else {
            Self::Name
        }
    }
}

/// Why a query failed.
#[derive(Debug, Clone, Copy, PartialEq, Eq, Structural)]
pub enum QueryError {
    /// The pattern could not be compiled.
    BadPattern,
    /// The graph does not have the shape that the evaluator relies on.
    GraphInconsistent,
}

/// A fully qualified name, split by the kind of the nodes that gave it.
#[derive(Debug, Clone, PartialEq, Eq, Hash)]
pub struct Fqdn {
    pub namespace: Option<String>,
    pub class: Option<String>,
    pub method: Option<String>,
}

/// A fully qualified name as a mathematical value.
pub struct FqdnModel {
    pub namespace: Option<Seq<char>>,
    pub class: Option<Seq<char>>,
    pub method: Option<Seq<char>>,
}

/// The view of an optional string.
pub open spec fn opt_view(text: Option<String>) -> Option<Seq<char>> {
    match text {
        Some(t) => Some(t@),
        None => None,
    }
}

impl View for Fqdn {
    type V = FqdnModel;

    open spec fn view(&self) -> FqdnModel {
        FqdnModel {
            namespace: opt_view(self.namespace),
            class: opt_view(self.class),
            method: opt_view(self.method),
        }
    }
}

impl FqdnModel {
    /// The name with no part set.
    pub open spec fn empty() -> FqdnModel {
        FqdnModel { namespace: None, class: None, method: None }
    }
}

/// `name` appended to what was collected before, with a `.` between them.
pub open spec fn dotted(before: Option<Seq<char>>, name: Seq<char>) -> Seq<char> {
    match before {
        Some(b) => b + seq!['.'] + name,
        None => name,
    }
}

/// The name that a parent's name `f` becomes when a node of the given kind
/// and symbol hangs below it; `None` for a kind that is no part of a name.
pub open spec fn extend_fqdn(f: FqdnModel, kind: SyntaxType, symbol: Seq<char>) -> Option<
    FqdnModel,
> {
    match kind {
        SyntaxType::NamespaceDeclaration => Some(
            FqdnModel { namespace: Some(dotted(f.namespace, symbol)), ..f },
        ),
        SyntaxType::MethodName => Some(FqdnModel { method: Some(dotted(f.method, symbol)), ..f }),
        SyntaxType::ClassDef => Some(FqdnModel { class: Some(dotted(f.class, symbol)), ..f }),
        _ => None,
    }
}

/// The sink of the edge that leads to the parent name, if there is one.
pub open spec fn fqn_parent(edges: Seq<Edge>) -> Option<usize> {
    if has_fqn_edge(edges) {
        Some(edges[choose|i: int| 0 <= i < edges.len() && edges[i].is_fqn()].sink)
    } else {
        None
    }
}

/// The fully qualified name of a node, found by following the edges to
/// parent names for at most `fuel` steps.
///
/// The topmost node starts the name with its own symbol; each node below
/// appends its symbol to the part that its kind names. A node whose kind is
/// no part of a name abandons the reconstruction: that node and every node
/// below it on the chain get `None`. A node without source information or
/// without a kind, an unknown handle, and a chain longer than `fuel` make
/// the graph inconsistent.
pub open spec fn fqn_walk(g: GraphModel, h: usize, fuel: nat) -> Result<
    Option<FqdnModel>,
    QueryError,
>
    decreases fuel,
{
    if !g.valid_node(h) {
        Err(QueryError::GraphInconsistent)
    } else {
        match g.node(h).kind() {
            None => Err(QueryError::GraphInconsistent),
            Some(kind) => {
                let symbol = match g.symbol_of(h) {
                    Some(s) => s,
                    None => Seq::empty(),
                };
                match fqn_parent(g.node(h).edges) {
                    None => Ok(extend_fqdn(FqdnModel::empty(), kind, symbol)),
                    Some(parent) => {
                        if fuel == 0 {
                            Err(QueryError::GraphInconsistent)
                        } else {
                            match fqn_walk(g, parent, (fuel - 1) as nat) {
                                Err(e) => Err(e),
                                Ok(None) => Ok(None),
                                Ok(Some(f)) => Ok(extend_fqdn(f, kind, symbol)),
                            }
                        }
                    },
                }
            },
        }
    }
}

/// The fully qualified name of a node. A chain of parent names without a
/// cycle has fewer steps than the graph has nodes.
pub open spec fn fqn_of(g: GraphModel, h: usize) -> Result<Option<FqdnModel>, QueryError> {
    fqn_walk(g, h, g.nodes.len())
}

/// The outcome of a reconstruction as a mathematical value.
pub open spec fn fqdn_outcome(res: Result<Option<Fqdn>, QueryError>) -> Result<
    Option<FqdnModel>,
    QueryError,
> {
    match res {
        Ok(Some(f)) => Ok(Some(f@)),
        Ok(None) => Ok(None),
        Err(e) => Err(e),
    }
}

/// Appends `symbol` to what was collected before, with a `.` between them.
fn append_dotted(before: Option<String>, symbol: &str) -> (joined: String)
    ensures
        joined@ == dotted(opt_view(before), symbol@),
{
    match before {
        None => symbol.to_owned(),
        Some(b) => {
            let mut joined = b;
            joined.push('.');
            joined.append(symbol);
            joined
        },
    }
}

/// The sink of the edge that leads to the parent name, if there is one.
fn find_fqn_parent(edges: &Vec<Edge>) -> (parent: Option<usize>)
    requires
        crate::c_sharp_graph::graph::at_most_one_fqn(edges@),
    ensures
        parent == fqn_parent(edges@),
{
    let mut i: usize = 0;
    while i < edges.len()
        invariant
            0 <= i <= edges@.len(),
            forall|j: int| 0 <= j < i ==> !edges@[j].is_fqn(),
            crate::c_sharp_graph::graph::at_most_one_fqn(edges@),
        decreases edges.len() - i,
    {
        if edges[i].precedence == FQN_PRECEDENCE {
            proof {
                assert(edges@[i as int].is_fqn());
                let k = choose|k: int| 0 <= k < edges@.len() && edges@[k].is_fqn();
                assert(k == i);
            }
            return Some(edges[i].sink);
        }
        i += 1;
    }
    None
}

/// Reconstructs the fully qualified name of `node`.
pub fn get_fqdn(node: usize, graph: &Graph) -> (res: Result<Option<Fqdn>, QueryError>)
    ensures
        fqdn_outcome(res) == fqn_of(graph@, node),
{
    get_fqdn_within(node, graph, graph.node_count())
}

/// Reconstructs the fully qualified name of `node` in at most `fuel` steps
/// towards the top of the name.
pub fn get_fqdn_within(node: usize, graph: &Graph, fuel: usize) -> (res: Result<
    Option<Fqdn>,
    QueryError,
>)
    ensures
        fqdn_outcome(res) == fqn_walk(graph@, node, fuel as nat),
    decreases fuel,
{
    if node < 1 || node > graph.node_count() {
        return Err(QueryError::GraphInconsistent);
    }
    let n = graph.node(node);
    let syntax_type = match n.source_info {
        None => {
            return Err(QueryError::GraphInconsistent);
        },
        Some(source_info) => match source_info.syntax_type {
            None => {
                return Err(QueryError::GraphInconsistent);
            },
            Some(t) => t,
        },
    };
    let symbol: &str = match n.node.symbol() {
        Some(symbol_handle) => graph.symbol(symbol_handle),
        None => "",
    };
    proof {
        reveal_strlit("");
        assert(""@ =~= Seq::<char>::empty());
    }
    let fqdn_edge = find_fqn_parent(&n.edges);
    let base = match fqdn_edge {
        None => Fqdn { namespace: None, class: None, method: None },
        Some(parent) => {
            if fuel == 0 {
                return Err(QueryError::GraphInconsistent);
            }
            match get_fqdn_within(parent, graph, fuel - 1) {
                Err(e) => {
                    return Err(e);
                },
                Ok(None) => {
                    return Ok(None);
                },
                Ok(Some(f)) => f,
            }
        },
    };
    match syntax_type {
        SyntaxType::NamespaceDeclaration => {
            let Fqdn { namespace, class, method } = base;
            Ok(Some(Fqdn { namespace: Some(append_dotted(namespace, symbol)), class, method }))
        },
        SyntaxType::MethodName => {
            let Fqdn { namespace, class, method } = base;
            Ok(Some(Fqdn { namespace, class, method: Some(append_dotted(method, symbol)) }))
        },
        SyntaxType::ClassDef => {
            let Fqdn { namespace, class, method } = base;
            Ok(Some(Fqdn { namespace, class: Some(append_dotted(class, symbol)), method }))
        },
        _ => Ok(None),
    }
}

/// The two flavours of a query.
#[derive(Debug, Clone, Copy, PartialEq, Eq, Structural)]
pub enum QueryKind {
    /// Every class and method below the matching namespaces counts.
    All,
    /// Only `class.method` references to methods below the matching
    /// namespaces count.
    Method,
}

/// Decides whether the symbol at the end of an edge is a hit.
pub enum Matcher {
    Namespace(NamespaceSymbols),
    Method(MethodSymbols),
}

impl Matcher {
    /// Whether the matcher accepts `symbol`.
    pub open spec fn accepts(self, symbol: Seq<char>) -> bool {
        match self {
            Matcher::Namespace(m) => m@.accepts(symbol),
            Matcher::Method(m) => m@.accepts(symbol),
        }
    }

    /// Whether the matcher accepts `symbol`.
    pub fn match_symbol(&self, symbol: &str) -> (b: bool)
        ensures
            b == self.accepts(symbol@),
    {
        match self {
            Matcher::Namespace(m) => m.match_symbol(symbol.to_owned()),
            Matcher::Method(m) => m.match_symbol(symbol.to_owned()),
        }
    }
}

/// Whether the evaluator looks at node `h` when it searches for starting
/// nodes: the node must have a file, a symbol and a syntax kind.
pub open spec fn eligible(g: GraphModel, h: usize) -> bool {
    g.valid_node(h) && g.node(h).file is Some && g.symbol_of(h) is Some && g.node(h).kind() is Some
}

/// Whether node `h` declares a namespace whose dotted name matches the
/// pattern.
pub open spec fn is_definition_root(g: GraphModel, parts: Seq<Seq<char>>, h: usize) -> bool {
    eligible(g, h) && g.node(h).kind() == Some(SyntaxType::NamespaceDeclaration) && prefix_matches(
        parts,
        g.symbol_of(h)->Some_0,
    )
}

/// The definition roots among the nodes with handles up to `upto`, in
/// ascending order of their handles.
pub open spec fn definition_roots(g: GraphModel, parts: Seq<Seq<char>>, upto: nat) -> Seq<usize>
    decreases upto,
{
    if upto == 0 {
        Seq::empty()
    } else if is_definition_root(g, parts, upto as usize) {
        definition_roots(g, parts, (upto - 1) as nat).push(upto as usize)
    } else {
        definition_roots(g, parts, (upto - 1) as nat)
    }
}

/// Whether node `h` makes file `f` a referenced file: it lies in `f` and is
/// an import or a namespace declaration whose dotted name matches the
/// pattern.
pub open spec fn references(g: GraphModel, parts: Seq<Seq<char>>, h: usize, f: usize) -> bool {
    &&& eligible(g, h)
    &&& g.node(h).file == Some(f)
    &&& g.node(h).kind() == Some(SyntaxType::Import) || g.node(h).kind() == Some(
        SyntaxType::NamespaceDeclaration,
    )
    &&& prefix_matches(parts, g.symbol_of(h)->Some_0)
}

/// Whether one of the nodes with handles up to `upto` makes `f` a
/// referenced file.
pub open spec fn referenced_upto(g: GraphModel, parts: Seq<Seq<char>>, f: usize, upto: nat) -> bool {
    exists|h: usize| h <= upto && #[trigger] references(g, parts, h, f)
}

/// Whether file `f` is referenced by the pattern.
pub open spec fn file_referenced(g: GraphModel, parts: Seq<Seq<char>>, f: usize) -> bool {
    referenced_upto(g, parts, f, g.nodes.len())
}

/// Whether node `h` is the compilation unit of file `f`.
pub open spec fn is_comp_unit_of(g: GraphModel, h: usize, f: usize) -> bool {
    eligible(g, h) && g.node(h).file == Some(f) && g.node(h).kind() == Some(SyntaxType::CompUnit)
}

/// The compilation unit of file `f`, if the file has one.
pub open spec fn comp_unit_of(g: GraphModel, f: usize) -> Option<usize> {
    if exists|h: usize| is_comp_unit_of(g, h, f) {
        Some(choose|h: usize| is_comp_unit_of(g, h, f))
    } else {
        None
    }
}

/// In a well-formed graph a file has at most one compilation unit.
pub proof fn lemma_comp_unit_unique(g: GraphModel, h: usize, f: usize)
    requires
        g.wf(),
        is_comp_unit_of(g, h, f),
    ensures
        comp_unit_of(g, f) == Some(h),
{
    let k = choose|k: usize| is_comp_unit_of(g, k, f);
    assert(g.nodes[h - 1].is_comp_unit());
    assert(g.nodes[k - 1].is_comp_unit());
}

/// Where the evaluator starts: the namespaces that match the pattern, the
/// files that refer to them, and the compilation unit of each file.
pub struct StartingNodes {
    /// The handles of the definition roots, ascending.
    pub definition_root_nodes: Vec<usize>,
    /// For the file with handle `f`, at position `f - 1`: whether it is
    /// referenced.
    pub referenced_files: Vec<bool>,
    /// For the file with handle `f`, at position `f - 1`: its compilation
    /// unit.
    pub file_to_compunit_handle: Vec<Option<usize>>,
}

impl StartingNodes {
    /// Whether these are the starting nodes of the pattern `parts` in `g`.
    pub open spec fn describes(self, g: GraphModel, parts: Seq<Seq<char>>) -> bool {
        &&& self.definition_root_nodes@ == definition_roots(g, parts, g.nodes.len())
        &&& self.referenced_files@.len() == g.files.len()
        &&& self.file_to_compunit_handle@.len() == g.files.len()
        &&& forall|f: usize|
            g.valid_file(f) ==> #[trigger] self.referenced_files@[f - 1] == file_referenced(
                g,
                parts,
                f,
            )
        &&& forall|f: usize|
            g.valid_file(f) ==> #[trigger] self.file_to_compunit_handle@[f - 1] == comp_unit_of(
                g,
                f,
            )
    }
}

/// What `Url::from_file_path` of the `url` crate makes of a path, as text:
/// the `file://` address of the path, or `None` for a path that has none.
pub uninterp spec fn file_url_text(path: Seq<char>) -> Option<Seq<char>>;

/// Calls `url::Url::from_file_path` and hands back the text of the address.
/// The address depends on the text of the path alone; the crate refuses a
/// path that is not absolute.
#[verifier::external_body]
fn file_url(path: &str) -> (uri: Option<String>)
    ensures
        opt_view(uri) == file_url_text(path@),
{
    match url::Url::from_file_path(path) {
        Ok(u) => Some(u.as_str().to_string()),
        Err(_) => None,
    }
}

/// Whether `after` begins with all of `before`: what was found before
/// stays in front.
pub open spec fn kept_in_front(before: Seq<ResultNode>, after: Seq<ResultNode>) -> bool {
    before.len() <= after.len() && after.take(before.len() as int) == before
}

/// What stays in front of a list stays in front of every list that keeps
/// that list in front.
pub proof fn lemma_kept_in_front(a: Seq<ResultNode>, b: Seq<ResultNode>, c: Seq<ResultNode>)
    requires
        kept_in_front(a, b),
        kept_in_front(b, c),
    ensures
        kept_in_front(a, c),
{
    assert(c.take(a.len() as int) =~= c.take(b.len() as int).take(a.len() as int));
}

/// The matcher as a predicate on symbols.
pub open spec fn acceptor(m: Matcher) -> spec_fn(Seq<char>) -> bool {
    |s: Seq<char>| m.accepts(s)
}

/// The incident that the `i`-th edge of `node` gives: where the edge is
/// ordinary and its sink carries source information and a symbol that the
/// matcher accepts, the incident for the sink's span; nothing otherwise.
pub open spec fn hit_at(
    g: GraphModel,
    accepts: spec_fn(Seq<char>) -> bool,
    uri: Seq<char>,
    node: usize,
    i: int,
) -> Seq<ResultModel> {
    if g.ordinary_edge(node, i) {
        let c = g.node(node).edges[i].sink;
        match (g.symbol_of(c), g.node(c).source_info) {
            (Some(s), Some(info)) => if accepts(s) {
                seq![incident(uri, info.span)]
            } else {
                Seq::empty()
            },
            _ => Seq::empty(),
        }
    } else {
        Seq::empty()
    }
}

/// The incidents that the first `upto` edges of `node` give, in the order
/// of the edges.
pub open spec fn hits(
    g: GraphModel,
    accepts: spec_fn(Seq<char>) -> bool,
    uri: Seq<char>,
    node: usize,
    upto: nat,
) -> Seq<ResultModel>
    decreases upto,
{
    if upto == 0 {
        Seq::empty()
    } else {
        hits(g, accepts, uri, node, (upto - 1) as nat) + hit_at(g, accepts, uri, node, upto - 1)
    }
}

/// The incidents found by walking on from the sinks of the first `upto`
/// edges of `node`, in the order of the edges: below each sink of an
/// ordinary edge, first the incidents that the sink's own edges give, then
/// those found by walking on from their sinks, at most `fuel` edges deep.
pub open spec fn deeper(
    g: GraphModel,
    accepts: spec_fn(Seq<char>) -> bool,
    uri: Seq<char>,
    node: usize,
    upto: nat,
    fuel: nat,
) -> Seq<ResultModel>
    decreases fuel, upto,
{
    if upto == 0 {
        Seq::empty()
    } else {
        let before = deeper(g, accepts, uri, node, (upto - 1) as nat, fuel);
        if g.ordinary_edge(node, upto - 1) && fuel > 0 {
            let c = g.node(node).edges[upto - 1].sink;
            before + hits(g, accepts, uri, c, g.node(c).edges.len()) + deeper(
                g,
                accepts,
                uri,
                c,
                g.node(c).edges.len(),
                (fuel - 1) as nat,
            )
        } else {
            before
        }
    }
}

/// The incidents of a depth-first walk from `node` along ordinary edges:
/// first those that the node's own edges give, then those of the walks from
/// their sinks.
pub open spec fn walk(
    g: GraphModel,
    accepts: spec_fn(Seq<char>) -> bool,
    uri: Seq<char>,
    node: usize,
    fuel: nat,
) -> Seq<ResultModel> {
    hits(g, accepts, uri, node, g.node(node).edges.len()) + deeper(
        g,
        accepts,
        uri,
        node,
        g.node(node).edges.len(),
        fuel,
    )
}

/// Whether file `f` carries the marker: one of its nodes bears the marker's
/// symbol and has an edge into the file's compilation unit `cu`.
pub open spec fn carries_marker(g: GraphModel, marker: usize, f: usize, cu: usize) -> bool {
    exists|h: usize| #[trigger] marks(g, marker, f, cu, h)
}

/// Whether node `h` marks file `f`: it lies in `f`, bears the marker's
/// symbol, and has an edge into `cu`.
pub open spec fn marks(g: GraphModel, marker: usize, f: usize, cu: usize, h: usize) -> bool {
    &&& g.valid_node(h)
    &&& g.node(h).file == Some(f)
    &&& g.node(h).node.spec_symbol() == Some(marker)
    &&& has_edge_to(g.node(h).edges, cu)
}

/// What the evaluator does with a file.
pub enum FileOutcome {
    /// The file is passed over: it is not referenced, has no compilation
    /// unit, or fails the source-only filter.
    Skipped,
    /// The file's name has no `file://` address; the evaluation ends here.
    Unaddressable,
    /// The file is walked from its compilation unit, and its incidents bear
    /// the given address.
    Walked { comp_unit: usize, uri: Seq<char> },
}

/// What the evaluator does with file `f`. Under a source marker only files
/// that carry the marker are walked; under a dependency marker every
/// referenced file is.
pub open spec fn file_outcome(
    g: GraphModel,
    parts: Seq<Seq<char>>,
    source_type: SourceType,
    f: usize,
) -> FileOutcome {
    if !file_referenced(g, parts, f) {
        FileOutcome::Skipped
    } else {
        match comp_unit_of(g, f) {
            None => FileOutcome::Skipped,
            Some(cu) => {
                if source_type is Source && !carries_marker(g, source_type.handle(), f, cu) {
                    FileOutcome::Skipped
                } else {
                    match file_url_text(g.file_name(f)) {
                        None => FileOutcome::Unaddressable,
                        Some(uri) => FileOutcome::Walked { comp_unit: cu, uri },
                    }
                }
            },
        }
    }
}

/// Whether the evaluation has ended at one of the files with handles up to
/// `upto`.
pub open spec fn stopped(
    g: GraphModel,
    parts: Seq<Seq<char>>,
    source_type: SourceType,
    upto: nat,
) -> bool {
    exists|f: usize| 1 <= f <= upto && #[trigger] file_outcome(g, parts, source_type, f) is Unaddressable
}

/// Whether the walk of every file with a handle up to `upto` that the
/// evaluation reaches comes to an end.
pub open spec fn walks_bounded(
    g: GraphModel,
    parts: Seq<Seq<char>>,
    source_type: SourceType,
    upto: nat,
) -> bool {
    forall|f: usize|
        1 <= f <= upto && !stopped(g, parts, source_type, (f - 1) as nat) ==> (#[trigger] file_outcome(
            g,
            parts,
            source_type,
            f,
        ) matches FileOutcome::Walked { comp_unit, .. } ==> g.bounded(comp_unit, g.nodes.len()))
}

/// The incidents of the files with handles up to `upto`, in ascending order
/// of the file handles.
pub open spec fn evaluated(
    g: GraphModel,
    parts: Seq<Seq<char>>,
    source_type: SourceType,
    accepts: spec_fn(Seq<char>) -> bool,
    upto: nat,
) -> Seq<ResultModel>
    decreases upto,
{
    if upto == 0 {
        Seq::empty()
    } else {
        let before = evaluated(g, parts, source_type, accepts, (upto - 1) as nat);
        if stopped(g, parts, source_type, (upto - 1) as nat) {
            before
        } else {
            match file_outcome(g, parts, source_type, upto as usize) {
                FileOutcome::Walked { comp_unit, uri } => before + walk(
                    g,
                    accepts,
                    uri,
                    comp_unit,
                    g.nodes.len(),
                ),
                _ => before,
            }
        }
    }
}

/// Whether the matcher of the given flavour can be built.
pub open spec fn matcher_builds(g: GraphModel, parts: Seq<Seq<char>>, kind: QueryKind) -> bool {
    let roots = definition_roots(g, parts, g.nodes.len());
    roots_bounded(g, roots) && (kind is Method ==> all_below_roots(
        g,
        resolves(g, parts.last()),
        roots,
    ))
}

/// The matcher of the given flavour, as a predicate on symbols.
pub open spec fn accepts_of(g: GraphModel, parts: Seq<Seq<char>>, kind: QueryKind) -> spec_fn(
    Seq<char>,
) -> bool {
    let roots = definition_roots(g, parts, g.nodes.len());
    match kind {
        QueryKind::All => |s: Seq<char>|
            NamespaceModel {
                classes: names_below_roots(g, parts.last(), SyntaxType::ClassDef, roots),
                class_methods: names_below_roots(g, parts.last(), SyntaxType::MethodName, roots),
            }.accepts(s),
        QueryKind::Method => |s: Seq<char>|
            MethodModel {
                methods: collect_below_roots(
                    g,
                    fqdn_items(g, parts.last()),
                    roots,
                    roots.len() as int,
                ),
            }.accepts(s),
    }
}

/// What the evaluation of a compiled pattern gives: the incidents of all
/// referenced files, or an inconsistency where the matcher cannot be built
/// or a walk does not come to an end.
pub open spec fn evaluation(
    g: GraphModel,
    parts: Seq<Seq<char>>,
    kind: QueryKind,
    source_type: SourceType,
) -> Result<Seq<ResultModel>, QueryError> {
    if !matcher_builds(g, parts, kind) {
        Err(QueryError::GraphInconsistent)
    } else if !walks_bounded(g, parts, source_type, g.files.len()) {
        Err(QueryError::GraphInconsistent)
    } else {
        Ok(evaluated(g, parts, source_type, accepts_of(g, parts, kind), g.files.len()))
    }
}

/// The outcome of a query as a mathematical value.
pub open spec fn query_outcome(res: Result<Vec<ResultNode>, QueryError>) -> Result<
    Seq<ResultModel>,
    QueryError,
> {
    match res {
        Ok(results) => Ok(result_views(results@)),
        Err(e) => Err(e),
    }
}

/// What a query gives: a pattern that does not compile is a bad pattern,
/// any other is evaluated.
pub open spec fn query_result(
    g: GraphModel,
    query: Seq<char>,
    kind: QueryKind,
    source_type: SourceType,
) -> Result<Seq<ResultModel>, QueryError> {
    if !compilable(query) {
        Err(QueryError::BadPattern)
    } else {
        evaluation(g, split_on(query, '.'), kind, source_type)
    }
}

/// Evaluates a pattern against a graph.
pub struct Querier<'graph> {
    pub graph: &'graph Graph,
    pub source_type: &'graph SourceType,
    pub kind: QueryKind,
}

impl<'graph> Querier<'graph> {
    /// Compiles the pattern.
    pub fn get_search(&self, query: String) -> (res: Result<Search, PatternError>)
        ensures
            res is Ok <==> compilable(query@),
            res matches Ok(search) ==> search@ == split_on(query@, '.'),
    {
        Search::create_search(query)
    }

    /// Finds the starting nodes: looks once at every node that has a file,
    /// a symbol and a syntax kind.
    pub fn get_starting_nodes(&self, search: &Search) -> (starting: StartingNodes)
        ensures
            starting.describes(self.graph@, search@),
    {
        let graph = self.graph;
        graph.check();
        let ghost g = graph@;
        let ghost parts = search@;
        let mut definition_root_nodes: Vec<usize> = Vec::new();
        let mut referenced_files: Vec<bool> = Vec::new();
        let mut file_to_compunit_handle: Vec<Option<usize>> = Vec::new();
        let file_count = graph.file_count();
        let mut k: usize = 0;
        while k < file_count
            invariant
                0 <= k <= file_count,
                referenced_files@.len() == k,
                file_to_compunit_handle@.len() == k,
                forall|j: int| 0 <= j < k ==> referenced_files@[j] == false,
                forall|j: int| 0 <= j < k ==> file_to_compunit_handle@[j] is None,
            decreases file_count - k,
        {
            referenced_files.push(false);
            file_to_compunit_handle.push(None);
            k += 1;
        }
        let node_count = graph.node_count();
        let mut done: usize = 0;
        while done < node_count
            invariant
                0 <= done <= node_count,
                node_count == g.nodes.len(),
                file_count == g.files.len(),
                g == graph@,
                g.wf(),
                parts == search@,
                definition_root_nodes@ == definition_roots(g, parts, done as nat),
                referenced_files@.len() == file_count,
                file_to_compunit_handle@.len() == file_count,
                forall|f: usize|
                    g.valid_file(f) ==> #[trigger] referenced_files@[f - 1] == referenced_upto(
                        g,
                        parts,
                        f,
                        done as nat,
                    ),
                forall|f: usize|
                    g.valid_file(f) ==> match #[trigger] file_to_compunit_handle@[f - 1] {
                        Some(h) => is_comp_unit_of(g, h, f),
                        None => forall|h: usize| h <= done ==> !is_comp_unit_of(g, h, f),
                    },
            decreases node_count - done,
        {
            let node_handle = done + 1;
            let node = graph.node(node_handle);
            let ghost before_refs = referenced_files@;
            let ghost before_units = file_to_compunit_handle@;
            proof {
                assert forall|f: usize| g.valid_file(f) implies referenced_upto(
                    g,
                    parts,
                    f,
                    node_handle as nat,
                ) == (referenced_upto(g, parts, f, done as nat) || references(
                    g,
                    parts,
                    node_handle,
                    f,
                )) by {
                    if referenced_upto(g, parts, f, node_handle as nat) {
                        let h = choose|h: usize|
                            h <= node_handle && #[trigger] references(g, parts, h, f);
                        if h != node_handle {
                            assert(h <= done && references(g, parts, h, f));
                        }
                    }
                    if referenced_upto(g, parts, f, done as nat) {
                        let h = choose|h: usize| h <= done && #[trigger] references(g, parts, h, f);
                        assert(h <= node_handle && references(g, parts, h, f));
                    }
                }
            }
            done += 1;
            let file_handle = match node.file {
                Some(h) => h,
                None => {
                    continue;
                },
            };
            let symbol_handle = match node.node.symbol() {
                Some(s) => s,
                None => {
                    continue;
                },
            };
            let symbol = graph.symbol(symbol_handle);
            let syntax_type = match node.source_info {
                None => {
                    continue;
                },
                Some(source_info) => match source_info.syntax_type {
                    None => {
                        continue;
                    },
                    Some(t) => t,
                },
            };
            assert(eligible(g, node_handle));
            match syntax_type {
                SyntaxType::CompUnit => {
                    file_to_compunit_handle.set(file_handle - 1, Some(node_handle));
                    assert(is_comp_unit_of(g, node_handle, file_handle));
                },
                SyntaxType::Import => {
                    if search.partial_namespace(symbol) {
                        referenced_files.set(file_handle - 1, true);
                    }
                },
                SyntaxType::NamespaceDeclaration => {
                    if search.match_namespace(symbol) {
                        definition_root_nodes.push(node_handle);
                        referenced_files.set(file_handle - 1, true);
                    }
                },
                _ => {},
            }
        }
        proof {
            assert forall|f: usize| g.valid_file(f) implies #[trigger] file_to_compunit_handle@[f
                - 1] == comp_unit_of(g, f) by {
                match file_to_compunit_handle@[f - 1] {
                    Some(h) => {
                        lemma_comp_unit_unique(g, h, f);
                    },
                    None => {
                        if exists|h: usize| is_comp_unit_of(g, h, f) {
                            let h = choose|h: usize| is_comp_unit_of(g, h, f);
                            assert(h <= done);
                        }
                    },
                }
            }
        }
        StartingNodes { definition_root_nodes, referenced_files, file_to_compunit_handle }
    }
}

impl<'graph> Querier<'graph> {
    /// Walks depth-first from `node` along ordinary edges, at most `fuel`
    /// edges deep, and appends an incident for every edge whose sink
    /// carries source information and a symbol that the matcher accepts. At
    /// each node the incidents of its own edges come first, then the walks
    /// from their sinks. Returns whether `node` is a node of the graph and
    /// every walk from it ended in time. Whatever is returned, the incidents
    /// that were there before stay in front.
    pub fn traverse_node_search(
        &self,
        node: usize,
        symbol_matcher: &Matcher,
        results: &mut Vec<ResultNode>,
        file_uri: String,
        fuel: usize,
    ) -> (ok: bool)
        ensures
            kept_in_front(old(results)@, final(results)@),
            ok == (self.graph@.valid_node(node) && self.graph@.bounded(node, fuel as nat)),
            ok ==> result_views(final(results)@) == result_views(old(results)@) + walk(
                self.graph@,
                acceptor(*symbol_matcher),
                file_uri@,
                node,
                fuel as nat,
            ),
        decreases fuel,
    {
        let graph = self.graph;
        let ghost start = results@;
        proof {
            assert(start.take(start.len() as int) =~= start);
        }
        if node < 1 || node > graph.node_count() {
            return false;
        }
        let ghost g = graph@;
        let ghost accepts = acceptor(*symbol_matcher);
        let ghost uri = file_uri@;
        let ghost before = result_views(results@);
        let record = graph.node(node);
        let edges = &record.edges;
        let mut i: usize = 0;
        proof {
            assert(before + hits(g, accepts, uri, node, 0) =~= before);
        }
        while i < edges.len()
            invariant
                0 <= i <= edges@.len(),
                g == graph@,
                graph == self.graph,
                g.wf(),
                g.valid_node(node),
                g.node_wf(g.node(node)),
                edges@ == g.node(node).edges,
                accepts == acceptor(*symbol_matcher),
                uri == file_uri@,
                start == old(results)@,
                kept_in_front(start, results@),
                result_views(results@) == before + hits(g, accepts, uri, node, i as nat),
            decreases edges.len() - i,
        {
            let edge = edges[i];
            let ghost so_far = result_views(results@);
            let ghost results_before = results@;
            i += 1;
            if edge.precedence == FQN_PRECEDENCE {
                assert(so_far + Seq::<ResultModel>::empty() =~= so_far);
                continue;
            }
            assert(g.ordinary_edge(node, i - 1));
            assert(g.valid_node(edge.sink));
            let child_node = graph.node(edge.sink);
            match child_node.node.symbol() {
                None => {},
                Some(symbol_handle) => {
                    let symbol = graph.symbol(symbol_handle);
                    if symbol_matcher.match_symbol(symbol) {
                        match child_node.source_info {
                            None => {},
                            Some(source_info) => {
                                let found = ResultNode::new(file_uri.as_str(), source_info.span);
                                proof {
                                    assert(results@.push(found).take(results@.len() as int)
                                        =~= results@);
                                    lemma_kept_in_front(start, results@, results@.push(found));
                                }
                                results.push(found);
                                assert(result_views(results@) =~= so_far + seq![
                                    incident(uri, source_info.span),
                                ]);
                            },
                        }
                    }
                },
            }
            assert(result_views(results@) =~= so_far + hit_at(g, accepts, uri, node, i - 1));
            assert(before + hits(g, accepts, uri, node, (i - 1) as nat) + hit_at(
                g,
                accepts,
                uri,
                node,
                i - 1,
            ) =~= before + hits(g, accepts, uri, node, i as nat));
        }
        let ghost own = before + hits(g, accepts, uri, node, edges@.len());
        let mut i: usize = 0;
        proof {
            assert(own + deeper(g, accepts, uri, node, 0, fuel as nat) =~= own);
        }
        while i < edges.len()
            invariant
                0 <= i <= edges@.len(),
                g == graph@,
                graph == self.graph,
                g.wf(),
                g.valid_node(node),
                g.node_wf(g.node(node)),
                edges@ == g.node(node).edges,
                accepts == acceptor(*symbol_matcher),
                uri == file_uri@,
                start == old(results)@,
                kept_in_front(start, results@),
                own == before + hits(g, accepts, uri, node, edges@.len()),
                forall|k: int| #[trigger]
                    g.ordinary_edge(node, k) && k < i ==> fuel > 0 && g.bounded(
                        g.node(node).edges[k].sink,
                        (fuel - 1) as nat,
                    ),
                result_views(results@) == own + deeper(
                    g,
                    accepts,
                    uri,
                    node,
                    i as nat,
                    fuel as nat,
                ),
            decreases edges.len() - i,
        {
            let edge = edges[i];
            let ghost so_far = result_views(results@);
            if edge.precedence == FQN_PRECEDENCE {
                i += 1;
                continue;
            }
            assert(g.ordinary_edge(node, i as int));
            if fuel == 0 {
                return false;
            }
            let ghost before_walk = results@;
            let ok = self.traverse_node_search(
                edge.sink,
                symbol_matcher,
                results,
                file_uri.clone(),
                fuel - 1,
            );
            proof {
                lemma_kept_in_front(start, before_walk, results@);
            }
            if !ok {
                return false;
            }
            proof {
                let c = edge.sink;
                let below = hits(g, accepts, uri, c, g.node(c).edges.len()) + deeper(
                    g,
                    accepts,
                    uri,
                    c,
                    g.node(c).edges.len(),
                    (fuel - 1) as nat,
                );
                assert(result_views(results@) == so_far + below);
                assert(deeper(g, accepts, uri, node, (i + 1) as nat, fuel as nat) == deeper(
                    g,
                    accepts,
                    uri,
                    node,
                    i as nat,
                    fuel as nat,
                ) + hits(g, accepts, uri, c, g.node(c).edges.len()) + deeper(
                    g,
                    accepts,
                    uri,
                    c,
                    g.node(c).edges.len(),
                    (fuel - 1) as nat,
                ));
                assert(so_far + below =~= own + deeper(
                    g,
                    accepts,
                    uri,
                    node,
                    (i + 1) as nat,
                    fuel as nat,
                ));
            }
            i += 1;
        }
        true
    }

    /// Whether file `file` carries the marker with symbol `marker`: one of
    /// its nodes bears that symbol and has an edge into `comp_unit`.
    pub fn file_carries_marker(&self, marker: usize, file: usize, comp_unit: usize) -> (b: bool)
        ensures
            b == carries_marker(self.graph@, marker, file, comp_unit),
    {
        let graph = self.graph;
        let ghost g = graph@;
        let node_count = graph.node_count();
        let mut done: usize = 0;
        while done < node_count
            invariant
                0 <= done <= node_count,
                node_count == g.nodes.len(),
                g == graph@,
                graph == self.graph,
                forall|h: usize| h <= done ==> !#[trigger] marks(g, marker, file, comp_unit, h),
            decreases node_count - done,
        {
            let node_handle = done + 1;
            let node = graph.node(node_handle);
            done += 1;
            let in_file = match node.file {
                Some(f) => f == file,
                None => false,
            };
            let bears = match node.node.symbol() {
                Some(sh) => sh == marker,
                None => false,
            };
            if in_file && bears {
                let edges = &node.edges;
                let mut i: usize = 0;
                while i < edges.len()
                    invariant
                        0 <= i <= edges@.len(),
                        edges@ == g.node(node_handle).edges,
                        g == self.graph@,
                        g.valid_node(node_handle),
                        g.node(node_handle).file == Some(file),
                        g.node(node_handle).node.spec_symbol() == Some(marker),
                        forall|k: int| 0 <= k < i ==> edges@[k].sink != comp_unit,
                    decreases edges.len() - i,
                {
                    if edges[i].sink == comp_unit {
                        assert(marks(g, marker, file, comp_unit, node_handle));
                        return true;
                    }
                    i += 1;
                }
            }
        }
        false
    }
}

/// Once the evaluation has ended at a file, later files add nothing.
pub proof fn lemma_stopped_rest(
    g: GraphModel,
    parts: Seq<Seq<char>>,
    source_type: SourceType,
    accepts: spec_fn(Seq<char>) -> bool,
    from: nat,
    to: nat,
)
    requires
        from <= to,
        stopped(g, parts, source_type, from),
    ensures
        evaluated(g, parts, source_type, accepts, to) == evaluated(
            g,
            parts,
            source_type,
            accepts,
            from,
        ),
        walks_bounded(g, parts, source_type, from) ==> walks_bounded(g, parts, source_type, to),
    decreases to,
{
    let f0 = choose|f: usize|
        1 <= f <= from && #[trigger] file_outcome(g, parts, source_type, f) is Unaddressable;
    if from < to {
        lemma_stopped_rest(g, parts, source_type, accepts, from, (to - 1) as nat);
        assert(1 <= f0 <= to - 1 && file_outcome(g, parts, source_type, f0) is Unaddressable);
        assert(stopped(g, parts, source_type, (to - 1) as nat));
    }
    if walks_bounded(g, parts, source_type, from) {
        assert forall|f: usize|
            1 <= f <= to && !stopped(g, parts, source_type, (f - 1) as nat) implies (
        #[trigger] file_outcome(g, parts, source_type, f) matches FileOutcome::Walked {
            comp_unit,
            ..
        } ==> g.bounded(comp_unit, g.nodes.len())) by {
            if f > from {
                assert(1 <= f0 <= f - 1 && file_outcome(g, parts, source_type, f0) is Unaddressable);
            }
        }
    }
}

impl<'graph> Querier<'graph> {
    /// Evaluates a dotted pattern: compiles it, finds the starting nodes,
    /// builds the matcher and walks every referenced file from its
    /// compilation unit, in ascending order of the file handles. Under a
    /// source marker, files that do not carry the marker are passed over.
    /// The evaluation ends at the first file whose name has no address.
    pub fn query(self, query: String) -> (res: Result<Vec<ResultNode>, QueryError>)
        ensures
            query_outcome(res) == query_result(
                self.graph@,
                query@,
                self.kind,
                *self.source_type,
            ),
    {
        let graph = self.graph;
        let ghost g = graph@;
        let ghost pattern = query@;
        let ghost parts = split_on(pattern, '.');
        let ghost source_type = *self.source_type;
        let search: Search = match self.get_search(query) {
            Ok(s) => s,
            Err(_) => {
                return Err(QueryError::BadPattern);
            },
        };
        let mut results: Vec<ResultNode> = Vec::new();
        let starting_nodes = self.get_starting_nodes(&search);
        // The symbols to match are those declared below the definition roots.
        let symbol_matcher = match self.kind {
            QueryKind::All => match NamespaceSymbols::new(
                graph,
                &starting_nodes.definition_root_nodes,
                &search,
            ) {
                Ok(m) => Matcher::Namespace(m),
                Err(e) => {
                    return Err(e);
                },
            },
            QueryKind::Method => match MethodSymbols::new(
                graph,
                &starting_nodes.definition_root_nodes,
                &search,
            ) {
                Ok(m) => Matcher::Method(m),
                Err(e) => {
                    return Err(e);
                },
            },
        };
        let ghost accepts = accepts_of(g, parts, self.kind);
        proof {
            assert(acceptor(symbol_matcher) =~= accepts);
            assert(result_views(results@) =~= Seq::<ResultModel>::empty());
        }
        let (is_source, marker) = match self.source_type {
            SourceType::Source { symbol_handle } => (true, *symbol_handle),
            SourceType::Dependency { symbol_handle } => (false, *symbol_handle),
        };
        let file_count = graph.file_count();
        let fuel = graph.node_count();
        let mut done: usize = 0;
        let mut stop = false;
        while done < file_count && !stop
            invariant
                0 <= done <= file_count,
                file_count == g.files.len(),
                fuel == g.nodes.len(),
                g == graph@,
                graph == self.graph,
                source_type == *self.source_type,
                is_source == (source_type is Source),
                marker == source_type.handle(),
                parts == search@,
                parts == split_on(pattern, '.'),
                pattern == query@,
                compilable(pattern),
                matcher_builds(g, parts, self.kind),
                starting_nodes.describes(g, parts),
                accepts == acceptor(symbol_matcher),
                stop == stopped(g, parts, source_type, done as nat),
                walks_bounded(g, parts, source_type, done as nat),
                result_views(results@) == evaluated(g, parts, source_type, accepts, done as nat),
            decreases file_count - done,
        {
            let file = done + 1;
            let ghost outcome = file_outcome(g, parts, source_type, file);
            proof {
                assert(g.valid_file(file));
                assert(stopped(g, parts, source_type, file as nat) == (outcome is Unaddressable))
                    by {
                    if stopped(g, parts, source_type, file as nat) {
                        let f = choose|f: usize|
                            1 <= f <= file && #[trigger] file_outcome(
                                g,
                                parts,
                                source_type,
                                f,
                            ) is Unaddressable;
                        if f != file {
                            assert(1 <= f <= done && file_outcome(
                                g,
                                parts,
                                source_type,
                                f,
                            ) is Unaddressable);
                        }
                    }
                }
                assert forall|f: usize|
                    1 <= f <= file && f != file && !stopped(
                        g,
                        parts,
                        source_type,
                        (f - 1) as nat,
                    ) implies (#[trigger] file_outcome(
                    g,
                    parts,
                    source_type,
                    f,
                ) matches FileOutcome::Walked { comp_unit, .. } ==> g.bounded(
                    comp_unit,
                    g.nodes.len(),
                )) by {}
            }
            done += 1;
            if !starting_nodes.referenced_files[file - 1] {
                continue;
            }
            let comp_unit_node_handle = match starting_nodes.file_to_compunit_handle[file - 1] {
                Some(x) => x,
                None => {
                    continue;
                },
            };
            // Under a source marker the file counts only where its marker
            // node is tied to its compilation unit.
            if is_source && !self.file_carries_marker(marker, file, comp_unit_node_handle) {
                continue;
            }
            let file_uri = match file_url(graph.file_name(file)) {
                Some(u) => u,
                None => {
                    stop = true;
                    continue;
                },
            };
            let ghost so_far = result_views(results@);
            let ok = self.traverse_node_search(
                comp_unit_node_handle,
                &symbol_matcher,
                &mut results,
                file_uri,
                fuel,
            );
            if !ok {
                proof {
                    assert(is_comp_unit_of(g, comp_unit_node_handle, file));
                    assert(outcome matches FileOutcome::Walked { comp_unit, .. } && comp_unit
                        == comp_unit_node_handle);
                    assert(!stopped(g, parts, source_type, (file - 1) as nat));
                    assert(!g.bounded(comp_unit_node_handle, g.nodes.len()));
                    assert(!walks_bounded(g, parts, source_type, g.files.len()));
                }
                return Err(QueryError::GraphInconsistent);
            }
        }
        proof {
            if stop {
                lemma_stopped_rest(g, parts, source_type, accepts, done as nat, g.files.len());
            }
        }
        Ok(results)
    }
}

/// A query against a graph, in one of its two flavours.
pub enum QueryType<'graph> {
    All { graph: &'graph Graph, source_type: &'graph SourceType },
    Method { graph: &'graph Graph, source_type: &'graph SourceType },
}

impl<'graph> QueryType<'graph> {
    /// The graph that is queried.
    pub open spec fn graph(self) -> GraphModel {
        match self {
            QueryType::All { graph, .. } => graph@,
            QueryType::Method { graph, .. } => graph@,
        }
    }

    /// The provenance marker that the query runs under.
    pub open spec fn source_type(self) -> SourceType {
        match self {
            QueryType::All { source_type, .. } => *source_type,
            QueryType::Method { source_type, .. } => *source_type,
        }
    }

    /// The flavour of the query.
    pub open spec fn kind(self) -> QueryKind {
        match self {
            QueryType::All { .. } => QueryKind::All,
            QueryType::Method { .. } => QueryKind::Method,
        }
    }
}

/// Something that answers dotted patterns with incidents.
pub trait Query: Sized {
    /// What the query gives for a pattern.
    spec fn answer(self, query: Seq<char>) -> Result<Seq<ResultModel>, QueryError>;

    /// Evaluates the pattern.
    fn query(self, query: String) -> (res: Result<Vec<ResultNode>, QueryError>)
        ensures
            query_outcome(res) == self.answer(query@),
    ;
}

impl<'graph> Query for QueryType<'graph> {
    open spec fn answer(self, query: Seq<char>) -> Result<Seq<ResultModel>, QueryError> {
        query_result(self.graph(), query, self.kind(), self.source_type())
    }

    fn query(self, query: String) -> (res: Result<Vec<ResultNode>, QueryError>) {
        match self {
            QueryType::All { graph, source_type } => {
                let q = Querier { graph, source_type, kind: QueryKind::All };
                q.query(query)
            },
            QueryType::Method { graph, source_type } => {
                let q = Querier { graph, source_type, kind: QueryKind::Method };
                q.query(query)
            },
        }
    }
}

} // verus!
