//! The matcher for method queries: it knows the fully qualified names of
//! the methods that are declared below the matching namespaces.

use crate::c_sharp_graph::graph::{Graph, GraphModel, FQN_PRECEDENCE};
use crate::c_sharp_graph::pattern::{part_matches, Search};
use crate::c_sharp_graph::query::{
    fqn_of, get_fqdn, opt_view, Fqdn, FqdnModel, QueryError, SyntaxType,
};
use crate::c_sharp_graph::walk::{
    all_below, all_below_roots, all_via, collect_below, collect_below_roots, collect_via,
    lemma_all_via_all, lemma_all_via_step, lemma_collect_below_roots_empty,
    lemma_collect_below_roots_step, lemma_collect_via_all, lemma_collect_via_step, roots_bounded,
};
use crate::text::{split_chars, split_on, views};
use vstd::prelude::*;

verus! {

/// Whether node `c` is a method whose symbol matches the last part `leaf`
/// of the pattern.
pub open spec fn is_method_hit(g: GraphModel, leaf: Seq<char>, c: usize) -> bool {
    &&& g.valid_node(c)
    &&& g.node(c).kind() == Some(SyntaxType::MethodName)
    &&& g.symbol_of(c) matches Some(s) && part_matches(leaf, s)
}

/// The name under which a method is known: its fully qualified name, and
/// the empty name where the reconstruction was abandoned.
pub open spec fn known_name(name: Option<FqdnModel>) -> FqdnModel {
    match name {
        Some(f) => f,
        None => FqdnModel::empty(),
    }
}

/// The fully qualified name that node `c` contributes: its own where it is
/// a hit, nothing otherwise.
pub open spec fn fqdn_at(g: GraphModel, leaf: Seq<char>, c: usize) -> Set<FqdnModel> {
    Set::new(
        |f: FqdnModel|
            is_method_hit(g, leaf, c) && match fqn_of(g, c) {
                Ok(name) => f == known_name(name),
                Err(_) => false,
            },
    )
}

/// What each node contributes to the names of the methods: see `fqdn_at`.
pub open spec fn fqdn_items(g: GraphModel, leaf: Seq<char>) -> spec_fn(usize) -> Set<FqdnModel> {
    |c: usize| fqdn_at(g, leaf, c)
}

/// Whether the chain of parent names of node `c` is consistent where `c`
/// is a hit.
pub open spec fn resolves(g: GraphModel, leaf: Seq<char>) -> spec_fn(usize) -> bool {
    |c: usize| is_method_hit(g, leaf, c) ==> fqn_of(g, c) is Ok
}

/// The names that a list of fully qualified names holds.
pub open spec fn fqdn_set(names: Seq<Fqdn>) -> Set<FqdnModel> {
    Set::new(|f: FqdnModel| exists|k: int| 0 <= k < names.len() && #[trigger] names[k]@ == f)
}

/// One more name in the list is one more name in the set.
pub proof fn lemma_fqdn_set_push(names: Seq<Fqdn>, name: Fqdn)
    ensures
        fqdn_set(names.push(name)) == fqdn_set(names).insert(name@),
{
    let longer = names.push(name);
    assert forall|f: FqdnModel| fqdn_set(longer).contains(f) == fqdn_set(names).insert(
        name@,
    ).contains(f) by {
        if fqdn_set(longer).contains(f) {
            let k = choose|k: int| 0 <= k < longer.len() && #[trigger] longer[k]@ == f;
            if k < names.len() {
                assert(names[k]@ == f);
            }
        }
        if fqdn_set(names).contains(f) {
            let k = choose|k: int| 0 <= k < names.len() && #[trigger] names[k]@ == f;
            assert(longer[k]@ == f);
        }
        if f == name@ {
            assert(longer[names.len() as int]@ == f);
        }
    }
    assert(fqdn_set(longer) =~= fqdn_set(names).insert(name@));
}

/// A node contributes its own fully qualified name or nothing.
pub proof fn lemma_fqdn_at(g: GraphModel, leaf: Seq<char>, c: usize)
    ensures
        fqdn_at(g, leaf, c) == if is_method_hit(g, leaf, c) {
            match fqn_of(g, c) {
                Ok(name) => Set::empty().insert(known_name(name)),
                Err(_) => Set::empty(),
            }
        } else {
            Set::empty()
        },
{
    if is_method_hit(g, leaf, c) {
        match fqn_of(g, c) {
            Ok(name) => {
                assert(fqdn_at(g, leaf, c) =~= Set::empty().insert(known_name(name)));
            },
            Err(_) => {
                assert(fqdn_at(g, leaf, c) =~= Set::empty());
            },
        }
    } else {
        assert(fqdn_at(g, leaf, c) =~= Set::empty());
    }
}

/// The text of an optional part of a name, empty where the part is not set.
pub open spec fn text_or_empty(part: Option<Seq<char>>) -> Seq<char> {
    match part {
        Some(t) => t,
        None => Seq::empty(),
    }
}

/// What the matcher knows, as a mathematical value.
pub struct MethodModel {
    pub methods: Set<FqdnModel>,
}

impl MethodModel {
    /// Whether the matcher accepts `symbol`: the symbol has exactly the two
    /// components `class.method`, and one of the known methods bears that
    /// method name in that class.
    pub open spec fn accepts(self, symbol: Seq<char>) -> bool {
        let parts = split_on(symbol, '.');
        parts.len() == 2 && exists|f: FqdnModel| #[trigger]
            self.methods.contains(f) && text_or_empty(f.method) == parts[1] && text_or_empty(
                f.class,
            ) == parts[0]
    }
}

/// The fully qualified names of the methods declared below a set of
/// namespaces.
pub struct MethodSymbols {
    methods: Vec<Fqdn>,
}

impl View for MethodSymbols {
    type V = MethodModel;

    closed spec fn view(&self) -> MethodModel {
        MethodModel { methods: fqdn_set(self.methods@) }
    }
}

/// Whether an optional part of a name reads `text`, an unset part counting
/// as empty.
fn part_reads(part: &Option<String>, text: &str) -> (same: bool)
    ensures
        same == (text_or_empty(opt_view(*part)) == text@),
{
    match part {
        Some(p) => *p.as_str() == *text,
        None => {
            proof {
                reveal_strlit("");
                assert(""@ =~= Seq::<char>::empty());
            }
            *"" == *text
        },
    }
}

impl MethodSymbols {
    /// Collects the fully qualified names of the methods that match the
    /// last part of the pattern and lie below the given namespace nodes. A
    /// method whose name was abandoned is known under the empty name. Fails
    /// where a root is no node of the graph, where the ordinary edges below
    /// a root run in a cycle, or where the chain of parent names of one of
    /// the methods is inconsistent.
    pub fn new(graph: &Graph, nodes: &Vec<usize>, search: &Search) -> (res: Result<
        MethodSymbols,
        QueryError,
    >)
        ensures
            res is Ok <==> roots_bounded(graph@, nodes@) && all_below_roots(
                graph@,
                resolves(graph@, search@.last()),
                nodes@,
            ),
            res matches Ok(m) ==> m@.methods == collect_below_roots(
                graph@,
                fqdn_items(graph@, search@.last()),
                nodes@,
                nodes@.len() as int,
            ),
            res matches Err(e) ==> e == QueryError::GraphInconsistent,
    {
        let mut methods: Vec<Fqdn> = Vec::new();
        let ghost g = graph@;
        let ghost items = fqdn_items(g, search@.last());
        let ghost holds = resolves(g, search@.last());
        let fuel = graph.node_count();
        let mut r: usize = 0;
        proof {
            lemma_collect_below_roots_empty(g, items, nodes@);
            assert(fqdn_set(methods@) =~= Set::<FqdnModel>::empty());
        }
        while r < nodes.len()
            invariant
                0 <= r <= nodes@.len(),
                g == graph@,
                items == fqdn_items(g, search@.last()),
                holds == resolves(g, search@.last()),
                fuel == g.nodes.len(),
                forall|k: int|
                    0 <= k < r ==> g.valid_node(#[trigger] nodes@[k]) && g.bounded(
                        nodes@[k],
                        g.nodes.len(),
                    ),
                forall|k: int| 0 <= k < r ==> #[trigger] all_below(g, holds, nodes@[k], g.nodes.len()),
                fqdn_set(methods@) == collect_below_roots(g, items, nodes@, r as int),
            decreases nodes.len() - r,
        {
            let node_handle = nodes[r];
            if node_handle < 1 || node_handle > graph.node_count() {
                return Err(QueryError::GraphInconsistent);
            }
            let ok = Self::traverse_node(graph, node_handle, search, &mut methods, fuel);
            if !ok {
                assert(!(g.bounded(nodes@[r as int], g.nodes.len()) && all_below(
                    g,
                    holds,
                    nodes@[r as int],
                    g.nodes.len(),
                )));
                return Err(QueryError::GraphInconsistent);
            }
            proof {
                lemma_collect_below_roots_step(g, items, nodes@, r as int);
            }
            r += 1;
        }
        Ok(MethodSymbols { methods })
    }

    /// Whether the matcher accepts `symbol`.
    pub fn match_symbol(&self, symbol: String) -> (b: bool)
        ensures
            b == self@.accepts(symbol@),
    {
        self.symbol_in_namespace(symbol)
    }

    /// Walks the ordinary edges below `node`, at most `fuel` deep, and
    /// records the fully qualified name of every method whose symbol
    /// matches the last part of the pattern. Returns whether every walk
    /// ended in time and every chain of parent names was consistent.
    fn traverse_node(
        graph: &Graph,
        node: usize,
        search: &Search,
        methods: &mut Vec<Fqdn>,
        fuel: usize,
    ) -> (ok: bool)
        requires
            graph@.valid_node(node),
        ensures
            ok == (graph@.bounded(node, fuel as nat) && all_below(
                graph@,
                resolves(graph@, search@.last()),
                node,
                fuel as nat,
            )),
            ok ==> fqdn_set(final(methods)@) == fqdn_set(old(methods)@).union(
                collect_below(graph@, fqdn_items(graph@, search@.last()), node, fuel as nat),
            ),
        decreases fuel,
    {
        let ghost g = graph@;
        let ghost leaf = search@.last();
        let ghost items = fqdn_items(g, leaf);
        let ghost holds = resolves(g, leaf);
        let ghost before = fqdn_set(methods@);
        let record = graph.node(node);
        let edges = &record.edges;
        proof {
            lemma_collect_via_all(g, items, node, fuel as nat);
            lemma_all_via_all(g, holds, node, fuel as nat);
            assert(before.union(Set::empty()) =~= before);
        }
        let mut i: usize = 0;
        while i < edges.len()
            invariant
                0 <= i <= edges@.len(),
                g == graph@,
                g.wf(),
                g.valid_node(node),
                g.node_wf(g.node(node)),
                edges@ == g.node(node).edges,
                leaf == search@.last(),
                items == fqdn_items(g, leaf),
                holds == resolves(g, leaf),
                forall|k: int| #[trigger]
                    g.ordinary_edge(node, k) && k < i ==> fuel > 0 && g.bounded(
                        g.node(node).edges[k].sink,
                        (fuel - 1) as nat,
                    ),
                all_via(g, holds, node, i as int, fuel as nat),
                fqdn_set(methods@) == before.union(
                    collect_via(g, items, node, i as int, fuel as nat),
                ),
            decreases edges.len() - i,
        {
            let edge = edges[i];
            proof {
                lemma_collect_via_step(g, items, node, i as int, fuel as nat);
                lemma_all_via_step(g, holds, node, i as int, fuel as nat);
            }
            if edge.precedence == FQN_PRECEDENCE {
                i += 1;
                continue;
            }
            assert(g.ordinary_edge(node, i as int));
            if fuel == 0 {
                return false;
            }
            let child = edge.sink;
            assert(g.valid_node(child));
            assert(g.reaches_via(node, i as int, child, fuel as nat));
            let child_node = graph.node(child);
            proof {
                lemma_fqdn_at(g, leaf, child);
                g.lemma_reaches(node, child, fuel as nat);
            }
            let mut is_hit = false;
            match child_node.node.symbol() {
                None => {},
                Some(symbol_handle) => {
                    let symbol = graph.symbol(symbol_handle);
                    if search.match_symbol(symbol) {
                        match child_node.source_info {
                            None => {},
                            Some(source_info) => match source_info.syntax_type {
                                Some(SyntaxType::MethodName) => {
                                    is_hit = true;
                                },
                                _ => {},
                            },
                        }
                    }
                },
            }
            assert(is_hit == is_method_hit(g, leaf, child));
            if is_hit {
                match get_fqdn(child, graph) {
                    Ok(Some(fqdn_name)) => {
                        proof {
                            lemma_fqdn_set_push(methods@, fqdn_name);
                        }
                        methods.push(fqdn_name);
                    },
                    Ok(None) => {
                        let fqdn_name = Fqdn { namespace: None, class: None, method: None };
                        proof {
                            lemma_fqdn_set_push(methods@, fqdn_name);
                        }
                        methods.push(fqdn_name);
                    },
                    Err(_) => {
                        assert(!holds(child));
                        return false;
                    },
                }
            }
            assert(holds(child));
            assert(fqdn_set(methods@) =~= before.union(
                collect_via(g, items, node, i as int, fuel as nat),
            ).union(items(child)));
            let ok = Self::traverse_node(graph, child, search, methods, fuel - 1);
            if !ok {
                proof {
                    if g.bounded(child, (fuel - 1) as nat) {
                        let c = choose|c: usize| #[trigger]
                            g.reaches(child, c, (fuel - 1) as nat) && !holds(c);
                        assert(g.reaches_via(node, i as int, c, fuel as nat));
                        g.lemma_reaches(node, c, fuel as nat);
                    }
                }
                return false;
            }
            assert(fqdn_set(methods@) =~= before.union(
                collect_via(g, items, node, i + 1, fuel as nat),
            ));
            i += 1;
        }
        true
    }

    /// Whether `symbol` reads `class.method` for one of the known methods.
    fn symbol_in_namespace(&self, symbol: String) -> (b: bool)
        ensures
            b == self@.accepts(symbol@),
    {
        let parts = split_chars(symbol.as_str(), '.');
        if parts.len() != 2 {
            return false;
        }
        let method_part = parts[1].as_str();
        let class_part = parts[0].as_str();
        proof {
            assert(views(parts@)[0] == parts@[0]@);
            assert(views(parts@)[1] == parts@[1]@);
        }
        let mut i: usize = 0;
        while i < self.methods.len()
            invariant
                0 <= i <= self.methods@.len(),
                method_part@ == split_on(symbol@, '.')[1],
                class_part@ == split_on(symbol@, '.')[0],
                split_on(symbol@, '.').len() == 2,
                forall|k: int|
                    0 <= k < i ==> !(text_or_empty((#[trigger] self.methods@[k])@.method)
                        == method_part@ && text_or_empty(self.methods@[k]@.class) == class_part@),
            decreases self.methods.len() - i,
        {
            let fqdn = &self.methods[i];
            if part_reads(&fqdn.method, method_part) && part_reads(&fqdn.class, class_part) {
                assert(self@.methods.contains(fqdn@));
                return true;
            }
            i += 1;
        }
        proof {
            assert forall|f: FqdnModel| #[trigger] self@.methods.contains(f) implies !(
            text_or_empty(f.method) == method_part@ && text_or_empty(f.class) == class_part@) by {
                let k = choose|k: int|
                    0 <= k < self.methods@.len() && #[trigger] self.methods@[k]@ == f;
                assert(self.methods@[k]@ == f);
            }
        }
        false
    }
}

} // verus!
