//! The matcher for whole-namespace queries: it knows the names of the
//! classes and methods that are declared below the matching namespaces.

use crate::c_sharp_graph::graph::{Graph, GraphModel, FQN_PRECEDENCE};
use crate::c_sharp_graph::pattern::{part_matches, Search};
use crate::c_sharp_graph::query::{QueryError, SyntaxType};
use crate::c_sharp_graph::walk::{
    collect_below, collect_below_roots, collect_via, lemma_collect_below_roots_empty,
    lemma_collect_below_roots_step, lemma_collect_via_all, lemma_collect_via_step, roots_bounded,
};
use vstd::prelude::*;

verus! {

/// Whether node `c` carries the symbol `s`, is of the given kind, and `s`
/// matches the last part `leaf` of the pattern.
pub open spec fn name_hit(
    g: GraphModel,
    leaf: Seq<char>,
    kind: SyntaxType,
    c: usize,
    s: Seq<char>,
) -> bool {
    g.valid_node(c) && g.symbol_of(c) == Some(s) && part_matches(leaf, s) && g.node(c).kind()
        == Some(kind)
}

/// The name that node `c` itself contributes: its symbol where it is a hit,
/// nothing otherwise.
pub open spec fn name_at(g: GraphModel, leaf: Seq<char>, kind: SyntaxType, c: usize) -> Set<
    Seq<char>,
> {
    Set::new(|s: Seq<char>| name_hit(g, leaf, kind, c, s))
}

/// What each node contributes to the names of a kind: see `name_at`.
pub open spec fn name_items(g: GraphModel, leaf: Seq<char>, kind: SyntaxType) -> spec_fn(
    usize,
) -> Set<Seq<char>> {
    |c: usize| name_at(g, leaf, kind, c)
}

/// The names of the nodes of the given kind that lie below one of the roots
/// and whose symbol matches `leaf`.
pub open spec fn names_below_roots(
    g: GraphModel,
    leaf: Seq<char>,
    kind: SyntaxType,
    roots: Seq<usize>,
) -> Set<Seq<char>> {
    collect_below_roots(g, name_items(g, leaf, kind), roots, roots.len() as int)
}

/// The texts that a list of strings holds.
pub open spec fn text_set(names: Seq<String>) -> Set<Seq<char>> {
    Set::new(|s: Seq<char>| exists|k: int| 0 <= k < names.len() && #[trigger] names[k]@ == s)
}

/// One more string in the list is one more text in the set.
pub proof fn lemma_text_set_push(names: Seq<String>, name: String)
    ensures
        text_set(names.push(name)) == text_set(names).insert(name@),
{
    let longer = names.push(name);
    assert forall|s: Seq<char>| text_set(longer).contains(s) == text_set(names).insert(
        name@,
    ).contains(s) by {
        if text_set(longer).contains(s) {
            let k = choose|k: int| 0 <= k < longer.len() && #[trigger] longer[k]@ == s;
            if k < names.len() {
                assert(names[k]@ == s);
            }
        }
        if text_set(names).contains(s) {
            let k = choose|k: int| 0 <= k < names.len() && #[trigger] names[k]@ == s;
            assert(longer[k]@ == s);
        }
        if s == name@ {
            assert(longer[names.len() as int]@ == s);
        }
    }
    assert(text_set(longer) =~= text_set(names).insert(name@));
}

/// A node contributes its own symbol or nothing.
pub proof fn lemma_name_at(g: GraphModel, leaf: Seq<char>, kind: SyntaxType, c: usize)
    ensures
        name_at(g, leaf, kind, c) == match g.symbol_of(c) {
            Some(s) => if name_hit(g, leaf, kind, c, s) {
                Set::empty().insert(s)
            } else {
                Set::empty()
            },
            None => Set::empty(),
        },
{
    match g.symbol_of(c) {
        Some(s) => {
            if name_hit(g, leaf, kind, c, s) {
                assert(name_at(g, leaf, kind, c) =~= Set::empty().insert(s));
            } else {
                assert(name_at(g, leaf, kind, c) =~= Set::empty());
            }
        },
        None => {
            assert(name_at(g, leaf, kind, c) =~= Set::empty());
        },
    }
}

/// What the matcher knows, as a mathematical value.
pub struct NamespaceModel {
    pub classes: Set<Seq<char>>,
    pub class_methods: Set<Seq<char>>,
}

impl NamespaceModel {
    /// Whether the matcher accepts `symbol`: it is the name of a class or
    /// of a method below one of the namespaces.
    pub open spec fn accepts(self, symbol: Seq<char>) -> bool {
        self.classes.contains(symbol) || self.class_methods.contains(symbol)
    }
}

/// The names of the classes and methods declared below a set of namespaces.
pub struct NamespaceSymbols {
    classes: Vec<String>,
    class_methods: Vec<String>,
}

impl View for NamespaceSymbols {
    type V = NamespaceModel;

    closed spec fn view(&self) -> NamespaceModel {
        NamespaceModel {
            classes: text_set(self.classes@),
            class_methods: text_set(self.class_methods@),
        }
    }
}

/// Whether `names` holds `symbol`.
fn holds_text(names: &Vec<String>, symbol: &str) -> (found: bool)
    ensures
        found == text_set(names@).contains(symbol@),
{
    let mut i: usize = 0;
    while i < names.len()
        invariant
            0 <= i <= names@.len(),
            forall|k: int| 0 <= k < i ==> names@[k]@ != symbol@,
        decreases names.len() - i,
    {
        if *names[i].as_str() == *symbol {
            return true;
        }
        i += 1;
    }
    false
}

impl NamespaceSymbols {
    /// Collects the names of the classes and methods that match the last
    /// part of the pattern and lie below the given namespace nodes. Fails
    /// where a root is no node of the graph or where the ordinary edges
    /// below a root run in a cycle.
    pub fn new(graph: &Graph, nodes: &Vec<usize>, search: &Search) -> (res: Result<
        NamespaceSymbols,
        QueryError,
    >)
        ensures
            res is Ok <==> roots_bounded(graph@, nodes@),
            res matches Ok(m) ==> {
                &&& m@.classes == names_below_roots(
                    graph@,
                    search@.last(),
                    SyntaxType::ClassDef,
                    nodes@,
                )
                &&& m@.class_methods == names_below_roots(
                    graph@,
                    search@.last(),
                    SyntaxType::MethodName,
                    nodes@,
                )
            },
            res matches Err(e) ==> e == QueryError::GraphInconsistent,
    {
        let mut classes: Vec<String> = Vec::new();
        let mut class_methods: Vec<String> = Vec::new();
        let ghost g = graph@;
        let ghost class_items = name_items(g, search@.last(), SyntaxType::ClassDef);
        let ghost method_items = name_items(g, search@.last(), SyntaxType::MethodName);
        let fuel = graph.node_count();
        let mut r: usize = 0;
        proof {
            lemma_collect_below_roots_empty(g, class_items, nodes@);
            lemma_collect_below_roots_empty(g, method_items, nodes@);
            assert(text_set(classes@) =~= Set::<Seq<char>>::empty());
            assert(text_set(class_methods@) =~= Set::<Seq<char>>::empty());
        }
        while r < nodes.len()
            invariant
                0 <= r <= nodes@.len(),
                g == graph@,
                class_items == name_items(g, search@.last(), SyntaxType::ClassDef),
                method_items == name_items(g, search@.last(), SyntaxType::MethodName),
                fuel == g.nodes.len(),
                forall|k: int|
                    0 <= k < r ==> g.valid_node(#[trigger] nodes@[k]) && g.bounded(
                        nodes@[k],
                        g.nodes.len(),
                    ),
                text_set(classes@) == collect_below_roots(g, class_items, nodes@, r as int),
                text_set(class_methods@) == collect_below_roots(g, method_items, nodes@, r as int),
            decreases nodes.len() - r,
        {
            let node_handle = nodes[r];
            if node_handle < 1 || node_handle > graph.node_count() {
                return Err(QueryError::GraphInconsistent);
            }
            let ok = Self::traverse_node(
                graph,
                node_handle,
                search,
                &mut classes,
                &mut class_methods,
                fuel,
            );
            if !ok {
                return Err(QueryError::GraphInconsistent);
            }
            proof {
                lemma_collect_below_roots_step(g, class_items, nodes@, r as int);
                lemma_collect_below_roots_step(g, method_items, nodes@, r as int);
            }
            r += 1;
        }
        Ok(NamespaceSymbols { classes, class_methods })
    }

    /// Whether the matcher accepts `symbol`.
    pub fn match_symbol(&self, symbol: String) -> (b: bool)
        ensures
            b == self@.accepts(symbol@),
    {
        self.symbol_in_namespace(symbol)
    }

    /// Walks the ordinary edges below `node`, at most `fuel` deep, and
    /// records the name of every class and method whose symbol matches the
    /// last part of the pattern. Returns whether every walk ended in time.
    fn traverse_node(
        db: &Graph,
        node: usize,
        search: &Search,
        classes: &mut Vec<String>,
        class_methods: &mut Vec<String>,
        fuel: usize,
    ) -> (ok: bool)
        requires
            db@.valid_node(node),
        ensures
            ok == db@.bounded(node, fuel as nat),
            ok ==> text_set(final(classes)@) == text_set(old(classes)@).union(
                collect_below(
                    db@,
                    name_items(db@, search@.last(), SyntaxType::ClassDef),
                    node,
                    fuel as nat,
                ),
            ),
            ok ==> text_set(final(class_methods)@) == text_set(old(class_methods)@).union(
                collect_below(
                    db@,
                    name_items(db@, search@.last(), SyntaxType::MethodName),
                    node,
                    fuel as nat,
                ),
            ),
        decreases fuel,
    {
        let ghost g = db@;
        let ghost leaf = search@.last();
        let ghost class_items = name_items(g, leaf, SyntaxType::ClassDef);
        let ghost method_items = name_items(g, leaf, SyntaxType::MethodName);
        let ghost classes_before = text_set(classes@);
        let ghost methods_before = text_set(class_methods@);
        let record = db.node(node);
        let edges = &record.edges;
        proof {
            lemma_collect_via_all(g, class_items, node, fuel as nat);
            lemma_collect_via_all(g, method_items, node, fuel as nat);
            assert(classes_before.union(Set::empty()) =~= classes_before);
            assert(methods_before.union(Set::empty()) =~= methods_before);
        }
        let mut i: usize = 0;
        while i < edges.len()
            invariant
                0 <= i <= edges@.len(),
                g == db@,
                g.wf(),
                g.valid_node(node),
                g.node_wf(g.node(node)),
                edges@ == g.node(node).edges,
                leaf == search@.last(),
                class_items == name_items(g, leaf, SyntaxType::ClassDef),
                method_items == name_items(g, leaf, SyntaxType::MethodName),
                forall|k: int| #[trigger]
                    g.ordinary_edge(node, k) && k < i ==> fuel > 0 && g.bounded(
                        g.node(node).edges[k].sink,
                        (fuel - 1) as nat,
                    ),
                text_set(classes@) == classes_before.union(
                    collect_via(g, class_items, node, i as int, fuel as nat),
                ),
                text_set(class_methods@) == methods_before.union(
                    collect_via(g, method_items, node, i as int, fuel as nat),
                ),
            decreases edges.len() - i,
        {
            let edge = edges[i];
            proof {
                lemma_collect_via_step(g, class_items, node, i as int, fuel as nat);
                lemma_collect_via_step(g, method_items, node, i as int, fuel as nat);
            }
            if edge.precedence == FQN_PRECEDENCE {
                i += 1;
                continue;
            }
            assert(g.ordinary_edge(node, i as int));
            if fuel == 0 {
                return false;
            }
            let child = edge.sink;
            assert(g.valid_node(child));
            let child_node = db.node(child);
            proof {
                lemma_name_at(g, leaf, SyntaxType::ClassDef, child);
                lemma_name_at(g, leaf, SyntaxType::MethodName, child);
            }
            match child_node.node.symbol() {
                None => {},
                Some(symbol_handle) => {
                    let symbol = db.symbol(symbol_handle);
                    if search.match_symbol(symbol) {
                        match child_node.source_info {
                            None => {},
                            Some(source_info) => match source_info.syntax_type {
                                Some(SyntaxType::MethodName) => {
                                    let name = symbol.to_owned();
                                    proof {
                                        lemma_text_set_push(class_methods@, name);
                                    }
                                    class_methods.push(name);
                                },
                                Some(SyntaxType::ClassDef) => {
                                    let name = symbol.to_owned();
                                    proof {
                                        lemma_text_set_push(classes@, name);
                                    }
                                    classes.push(name);
                                },
                                _ => {},
                            },
                        }
                    }
                },
            }
            assert(text_set(classes@) =~= classes_before.union(
                collect_via(g, class_items, node, i as int, fuel as nat),
            ).union(class_items(child)));
            assert(text_set(class_methods@) =~= methods_before.union(
                collect_via(g, method_items, node, i as int, fuel as nat),
            ).union(method_items(child)));
            let ok = Self::traverse_node(db, child, search, classes, class_methods, fuel - 1);
            if !ok {
                return false;
            }
            assert(text_set(classes@) =~= classes_before.union(
                collect_via(g, class_items, node, i + 1, fuel as nat),
            ));
            assert(text_set(class_methods@) =~= methods_before.union(
                collect_via(g, method_items, node, i + 1, fuel as nat),
            ));
            i += 1;
        }
        true
    }

    /// Whether `symbol` is the name of a known class or method.
    fn symbol_in_namespace(&self, symbol: String) -> (b: bool)
        ensures
            b == self@.accepts(symbol@),
    {
        let class_match = holds_text(&self.classes, symbol.as_str());
        let method_match = holds_text(&self.class_methods, symbol.as_str());
        class_match || method_match
    }
}

} // verus!
