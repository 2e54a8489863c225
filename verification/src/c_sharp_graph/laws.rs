//! What holds of every graph and every pattern.

use crate::c_sharp_graph::graph::GraphModel;
use crate::c_sharp_graph::loader::SourceType;
use crate::c_sharp_graph::query::{
    carries_marker, comp_unit_of, deeper, definition_roots, dotted, evaluated, file_outcome,
    is_definition_root,
    file_referenced, file_url_text, fqn_parent, fqn_walk, hit_at, hits, stopped, walk, FileOutcome,
    FqdnModel, QueryError, SyntaxType,
};
use crate::c_sharp_graph::results::{
    incident, insert_reported, report_order, reported_before, ResultModel,
};
use crate::text::{lemma_lex_le_total, lemma_lex_le_transitive, lex_le};
use vstd::prelude::*;

verus! {

/// The names joined by `.`, in order; `None` where there is no name.
pub open spec fn join_dots(names: Seq<Seq<char>>) -> Option<Seq<char>>
    decreases names.len(),
{
    if names.len() == 0 {
        None
    } else {
        Some(dotted(join_dots(names.drop_last()), names.last()))
    }
}

/// Whether `kind` names a part of a fully qualified name.
pub open spec fn names_a_part(kind: Option<SyntaxType>) -> bool {
    kind == Some(SyntaxType::NamespaceDeclaration) || kind == Some(SyntaxType::ClassDef) || kind
        == Some(SyntaxType::MethodName)
}

/// Whether the chain of parent names that starts at `h` ends within `fuel`
/// steps and holds nothing but namespaces, classes and methods.
pub open spec fn chain_named(g: GraphModel, h: usize, fuel: nat) -> bool
    decreases fuel,
{
    &&& g.valid_node(h)
    &&& names_a_part(g.node(h).kind())
    &&& g.symbol_of(h) is Some
    &&& fqn_parent(g.node(h).edges) matches Some(parent) ==> fuel > 0 && chain_named(
        g,
        parent,
        (fuel - 1) as nat,
    )
}

/// The symbols of the nodes of the given kind on the chain of parent names
/// that starts at `h`, the topmost first and that of `h` itself last.
pub open spec fn names_on_chain(g: GraphModel, h: usize, fuel: nat, kind: SyntaxType) -> Seq<
    Seq<char>,
>
    decreases fuel,
{
    let above = match fqn_parent(g.node(h).edges) {
        Some(parent) => if fuel > 0 {
            names_on_chain(g, parent, (fuel - 1) as nat, kind)
        } else {
            Seq::empty()
        },
        None => Seq::empty(),
    };
    if g.node(h).kind() == Some(kind) {
        above.push(g.symbol_of(h)->Some_0)
    } else {
        above
    }
}

/// On a chain of namespaces, classes and methods, each part of the fully
/// qualified name is set at most once: to the symbols of the chain's nodes
/// of that part's kind, joined by `.` from the top of the chain down, and
/// left unset where the chain has no node of that kind.
pub proof fn lemma_fqn_joins_names(g: GraphModel, h: usize, fuel: nat)
    requires
        chain_named(g, h, fuel),
    ensures
        fqn_walk(g, h, fuel) == Ok::<_, QueryError>(
            Some(
                FqdnModel {
                    namespace: join_dots(
                        names_on_chain(g, h, fuel, SyntaxType::NamespaceDeclaration),
                    ),
                    class: join_dots(names_on_chain(g, h, fuel, SyntaxType::ClassDef)),
                    method: join_dots(names_on_chain(g, h, fuel, SyntaxType::MethodName)),
                },
            ),
        ),
    decreases fuel,
{
    let symbol = g.symbol_of(h)->Some_0;
    let kind = g.node(h).kind()->Some_0;
    let ns = names_on_chain(g, h, fuel, SyntaxType::NamespaceDeclaration);
    let cl = names_on_chain(g, h, fuel, SyntaxType::ClassDef);
    let me = names_on_chain(g, h, fuel, SyntaxType::MethodName);
    match fqn_parent(g.node(h).edges) {
        Some(parent) => {
            lemma_fqn_joins_names(g, parent, (fuel - 1) as nat);
            let above_ns = names_on_chain(
                g,
                parent,
                (fuel - 1) as nat,
                SyntaxType::NamespaceDeclaration,
            );
            let above_cl = names_on_chain(g, parent, (fuel - 1) as nat, SyntaxType::ClassDef);
            let above_me = names_on_chain(g, parent, (fuel - 1) as nat, SyntaxType::MethodName);
            if kind == SyntaxType::NamespaceDeclaration {
                assert(ns.drop_last() =~= above_ns);
            } else if kind == SyntaxType::ClassDef {
                assert(cl.drop_last() =~= above_cl);
            } else {
                assert(me.drop_last() =~= above_me);
            }
        },
        None => {
            let none = Seq::<Seq<char>>::empty();
            if kind == SyntaxType::NamespaceDeclaration {
                assert(ns.drop_last() =~= none);
            } else if kind == SyntaxType::ClassDef {
                assert(cl.drop_last() =~= none);
            } else {
                assert(me.drop_last() =~= none);
            }
        },
    }
}

/// Whether `x` lies on the chain of parent names that starts at `h`, at
/// most `fuel` steps up.
pub open spec fn on_chain(g: GraphModel, h: usize, fuel: nat, x: usize) -> bool
    decreases fuel,
{
    if h == x {
        true
    } else if fuel == 0 {
        false
    } else {
        match fqn_parent(g.node(h).edges) {
            Some(parent) => on_chain(g, parent, (fuel - 1) as nat, x),
            None => false,
        }
    }
}

/// A node whose kind is no part of a name abandons the reconstruction for
/// itself and for every node below it on the chain: none of them gets a
/// name.
pub proof fn lemma_other_kind_abandons(g: GraphModel, h: usize, fuel: nat, x: usize)
    requires
        on_chain(g, h, fuel, x),
        !names_a_part(g.node(x).kind()),
    ensures
        fqn_walk(g, h, fuel) is Err || fqn_walk(g, h, fuel) == Ok::<Option<FqdnModel>, QueryError>(
            None,
        ),
    decreases fuel,
{
    if h != x {
        let parent = fqn_parent(g.node(h).edges)->Some_0;
        lemma_other_kind_abandons(g, parent, (fuel - 1) as nat, x);
    }
}

/// Every incident that the edges of a node give bears the address that the
/// walk was started with.
pub proof fn lemma_hits_bear_uri(
    g: GraphModel,
    accepts: spec_fn(Seq<char>) -> bool,
    uri: Seq<char>,
    node: usize,
    upto: nat,
)
    ensures
        forall|k: int|
            0 <= k < hits(g, accepts, uri, node, upto).len() ==> (#[trigger] hits(
                g,
                accepts,
                uri,
                node,
                upto,
            )[k]).file_uri == uri,
    decreases upto,
{
    if upto > 0 {
        lemma_hits_bear_uri(g, accepts, uri, node, (upto - 1) as nat);
        let before = hits(g, accepts, uri, node, (upto - 1) as nat);
        let last = hit_at(g, accepts, uri, node, upto - 1);
        assert forall|k: int| 0 <= k < (before + last).len() implies (#[trigger] (before
            + last)[k]).file_uri == uri by {
            if k < before.len() {
                assert((before + last)[k] == before[k]);
            } else {
                assert((before + last)[k] == last[k - before.len()]);
            }
        }
    }
}

/// Every incident found below the sinks of a node's edges bears the address
/// that the walk was started with.
pub proof fn lemma_deeper_bear_uri(
    g: GraphModel,
    accepts: spec_fn(Seq<char>) -> bool,
    uri: Seq<char>,
    node: usize,
    upto: nat,
    fuel: nat,
)
    ensures
        forall|k: int|
            0 <= k < deeper(g, accepts, uri, node, upto, fuel).len() ==> (#[trigger] deeper(
                g,
                accepts,
                uri,
                node,
                upto,
                fuel,
            )[k]).file_uri == uri,
    decreases fuel, upto,
{
    if upto > 0 {
        lemma_deeper_bear_uri(g, accepts, uri, node, (upto - 1) as nat, fuel);
        if g.ordinary_edge(node, upto - 1) && fuel > 0 {
            let c = g.node(node).edges[upto - 1].sink;
            lemma_hits_bear_uri(g, accepts, uri, c, g.node(c).edges.len());
            lemma_deeper_bear_uri(g, accepts, uri, c, g.node(c).edges.len(), (fuel - 1) as nat);
            let before = deeper(g, accepts, uri, node, (upto - 1) as nat, fuel);
            let own = hits(g, accepts, uri, c, g.node(c).edges.len());
            let below = deeper(g, accepts, uri, c, g.node(c).edges.len(), (fuel - 1) as nat);
            let all = before + own + below;
            assert(deeper(g, accepts, uri, node, upto, fuel) == all);
            assert forall|k: int| 0 <= k < all.len() implies (#[trigger] all[k]).file_uri
                == uri by {
                if k < before.len() {
                    assert(all[k] == before[k]);
                } else if k < before.len() + own.len() {
                    assert(all[k] == own[k - before.len()]);
                } else {
                    assert(all[k] == below[k - before.len() - own.len()]);
                }
            }
        } else {
            assert(deeper(g, accepts, uri, node, upto, fuel) == deeper(
                g,
                accepts,
                uri,
                node,
                (upto - 1) as nat,
                fuel,
            ));
        }
    }
}

/// Every incident of a walk bears the address that the walk was started
/// with.
pub proof fn lemma_walk_bears_uri(
    g: GraphModel,
    accepts: spec_fn(Seq<char>) -> bool,
    uri: Seq<char>,
    node: usize,
    fuel: nat,
)
    ensures
        forall|k: int|
            0 <= k < walk(g, accepts, uri, node, fuel).len() ==> (#[trigger] walk(
                g,
                accepts,
                uri,
                node,
                fuel,
            )[k]).file_uri == uri,
{
    lemma_hits_bear_uri(g, accepts, uri, node, g.node(node).edges.len());
    lemma_deeper_bear_uri(g, accepts, uri, node, g.node(node).edges.len(), fuel);
    let own = hits(g, accepts, uri, node, g.node(node).edges.len());
    let below = deeper(g, accepts, uri, node, g.node(node).edges.len(), fuel);
    assert forall|k: int| 0 <= k < (own + below).len() implies (#[trigger] (own
        + below)[k]).file_uri == uri by {
        if k < own.len() {
            assert((own + below)[k] == own[k]);
        } else {
            assert((own + below)[k] == below[k - own.len()]);
        }
    }
}

/// Whether `r` is the incident of node `c`: the node carries a symbol that
/// the matcher accepts, and `r` reports its span.
pub open spec fn is_incident_of(
    g: GraphModel,
    accepts: spec_fn(Seq<char>) -> bool,
    uri: Seq<char>,
    c: usize,
    r: ResultModel,
) -> bool {
    &&& g.symbol_of(c) matches Some(s) && accepts(s)
    &&& g.node(c).source_info matches Some(info) && r == incident(uri, info.span)
}

/// What can be reached along some number of ordinary edges can be reached
/// along more.
pub proof fn lemma_reaches_with_more_fuel(
    g: GraphModel,
    from: usize,
    to: usize,
    fuel: nat,
    more: nat,
)
    requires
        g.reaches(from, to, fuel),
        fuel <= more,
    ensures
        g.reaches(from, to, more),
    decreases fuel,
{
    let i = choose|i: int| #[trigger]
        g.ordinary_edge(from, i) && (g.node(from).edges[i].sink == to || g.reaches(
            g.node(from).edges[i].sink,
            to,
            (fuel - 1) as nat,
        ));
    if g.node(from).edges[i].sink != to {
        lemma_reaches_with_more_fuel(
            g,
            g.node(from).edges[i].sink,
            to,
            (fuel - 1) as nat,
            (more - 1) as nat,
        );
    }
    assert(g.ordinary_edge(from, i));
}

/// Whether `r` is the incident of a node that is reached from `node` along
/// at least one and at most `fuel` ordinary edges.
pub open spec fn found_below(
    g: GraphModel,
    accepts: spec_fn(Seq<char>) -> bool,
    uri: Seq<char>,
    node: usize,
    fuel: nat,
    r: ResultModel,
) -> bool {
    exists|c: usize| #[trigger] g.reaches(node, c, fuel) && is_incident_of(g, accepts, uri, c, r)
}

/// Every incident that the edges of a node give is the incident of the
/// sink of one of its ordinary edges.
pub proof fn lemma_hits_are_sinks(
    g: GraphModel,
    accepts: spec_fn(Seq<char>) -> bool,
    uri: Seq<char>,
    node: usize,
    upto: nat,
)
    ensures
        forall|k: int|
            0 <= k < hits(g, accepts, uri, node, upto).len() ==> found_below(
                g,
                accepts,
                uri,
                node,
                1,
                #[trigger] hits(g, accepts, uri, node, upto)[k],
            ),
    decreases upto,
{
    if upto > 0 {
        lemma_hits_are_sinks(g, accepts, uri, node, (upto - 1) as nat);
        let before = hits(g, accepts, uri, node, (upto - 1) as nat);
        let last = hit_at(g, accepts, uri, node, upto - 1);
        assert forall|k: int| 0 <= k < (before + last).len() implies found_below(
            g,
            accepts,
            uri,
            node,
            1,
            #[trigger] (before + last)[k],
        ) by {
            if k < before.len() {
                assert((before + last)[k] == before[k]);
            } else {
                assert((before + last)[k] == last[k - before.len()]);
                let c = g.node(node).edges[upto - 1].sink;
                assert(g.ordinary_edge(node, upto - 1));
                assert(g.reaches(node, c, 1));
                assert(is_incident_of(g, accepts, uri, c, last[0]));
            }
        }
    }
}

/// Every incident found below the sinks of a node's edges is the incident
/// of a node that is reached from the node along ordinary edges.
pub proof fn lemma_deeper_are_reachable(
    g: GraphModel,
    accepts: spec_fn(Seq<char>) -> bool,
    uri: Seq<char>,
    node: usize,
    upto: nat,
    fuel: nat,
)
    ensures
        forall|k: int|
            0 <= k < deeper(g, accepts, uri, node, upto, fuel).len() ==> found_below(
                g,
                accepts,
                uri,
                node,
                fuel + 1,
                #[trigger] deeper(g, accepts, uri, node, upto, fuel)[k],
            ),
    decreases fuel, upto,
{
    if upto > 0 {
        lemma_deeper_are_reachable(g, accepts, uri, node, (upto - 1) as nat, fuel);
        let before = deeper(g, accepts, uri, node, (upto - 1) as nat, fuel);
        if g.ordinary_edge(node, upto - 1) && fuel > 0 {
            let child = g.node(node).edges[upto - 1].sink;
            lemma_hits_are_sinks(g, accepts, uri, child, g.node(child).edges.len());
            lemma_deeper_are_reachable(
                g,
                accepts,
                uri,
                child,
                g.node(child).edges.len(),
                (fuel - 1) as nat,
            );
            let own = hits(g, accepts, uri, child, g.node(child).edges.len());
            let below = deeper(
                g,
                accepts,
                uri,
                child,
                g.node(child).edges.len(),
                (fuel - 1) as nat,
            );
            let all = before + own + below;
            assert(deeper(g, accepts, uri, node, upto, fuel) == all);
            assert forall|k: int| 0 <= k < all.len() implies found_below(
                g,
                accepts,
                uri,
                node,
                fuel + 1,
                #[trigger] all[k],
            ) by {
                if k < before.len() {
                    assert(all[k] == before[k]);
                } else if k < before.len() + own.len() {
                    let r = own[k - before.len()];
                    assert(all[k] == r);
                    assert(found_below(g, accepts, uri, child, 1, r));
                    let c = choose|c: usize| #[trigger]
                        g.reaches(child, c, 1) && is_incident_of(g, accepts, uri, c, r);
                    lemma_reaches_with_more_fuel(g, child, c, 1, fuel);
                    assert(g.reaches(node, c, fuel + 1));
                } else {
                    let r = below[k - before.len() - own.len()];
                    assert(all[k] == r);
                    assert(found_below(g, accepts, uri, child, ((fuel - 1) as nat) + 1, r));
                    let c = choose|c: usize| #[trigger]
                        g.reaches(child, c, ((fuel - 1) as nat) + 1) && is_incident_of(
                            g,
                            accepts,
                            uri,
                            c,
                            r,
                        );
                    assert(g.reaches(node, c, fuel + 1));
                }
            }
        } else {
            assert(deeper(g, accepts, uri, node, upto, fuel) == before);
        }
    }
}

/// Every incident of a walk is the incident of a node that is reached from
/// the start along ordinary edges alone, and whose symbol the matcher
/// accepts: edges to parent names are never followed.
pub proof fn lemma_walk_finds_reachable_hits(
    g: GraphModel,
    accepts: spec_fn(Seq<char>) -> bool,
    uri: Seq<char>,
    node: usize,
    fuel: nat,
)
    ensures
        forall|k: int|
            0 <= k < walk(g, accepts, uri, node, fuel).len() ==> found_below(
                g,
                accepts,
                uri,
                node,
                fuel + 1,
                #[trigger] walk(g, accepts, uri, node, fuel)[k],
            ),
{
    lemma_hits_are_sinks(g, accepts, uri, node, g.node(node).edges.len());
    lemma_deeper_are_reachable(g, accepts, uri, node, g.node(node).edges.len(), fuel);
    let own = hits(g, accepts, uri, node, g.node(node).edges.len());
    let below = deeper(g, accepts, uri, node, g.node(node).edges.len(), fuel);
    assert forall|k: int| 0 <= k < (own + below).len() implies found_below(
        g,
        accepts,
        uri,
        node,
        fuel + 1,
        #[trigger] (own + below)[k],
    ) by {
        if k < own.len() {
            let r = own[k];
            assert((own + below)[k] == r);
            assert(found_below(g, accepts, uri, node, 1, r));
            let c = choose|c: usize| #[trigger]
                g.reaches(node, c, 1) && is_incident_of(g, accepts, uri, c, r);
            lemma_reaches_with_more_fuel(g, node, c, 1, fuel + 1);
        } else {
            assert((own + below)[k] == below[k - own.len()]);
        }
    }
}

/// Whether `uri` is the address of a referenced file that has a compilation
/// unit and, under a source marker, carries that marker.
pub open spec fn addresses_admitted_file(
    g: GraphModel,
    parts: Seq<Seq<char>>,
    source_type: SourceType,
    uri: Seq<char>,
) -> bool {
    exists|f: usize|
        {
            &&& g.valid_file(f)
            &&& #[trigger] file_referenced(g, parts, f)
            &&& file_url_text(g.file_name(f)) == Some(uri)
            &&& comp_unit_of(g, f) matches Some(cu) && (source_type is Source ==> carries_marker(
                g,
                source_type.handle(),
                f,
                cu,
            ))
        }
}

/// Every incident of an evaluation bears the address of a referenced file;
/// under a source marker that file carries the marker, so that no incident
/// comes from a file without it.
pub proof fn lemma_incidents_come_from_admitted_files(
    g: GraphModel,
    parts: Seq<Seq<char>>,
    source_type: SourceType,
    accepts: spec_fn(Seq<char>) -> bool,
    upto: nat,
)
    requires
        g.wf(),
        upto <= g.files.len(),
    ensures
        forall|k: int|
            0 <= k < evaluated(g, parts, source_type, accepts, upto).len()
                ==> addresses_admitted_file(
                g,
                parts,
                source_type,
                (#[trigger] evaluated(g, parts, source_type, accepts, upto)[k]).file_uri,
            ),
    decreases upto,
{
    if upto > 0 {
        lemma_incidents_come_from_admitted_files(
            g,
            parts,
            source_type,
            accepts,
            (upto - 1) as nat,
        );
        let before = evaluated(g, parts, source_type, accepts, (upto - 1) as nat);
        if !stopped(g, parts, source_type, (upto - 1) as nat) {
            match file_outcome(g, parts, source_type, upto as usize) {
                FileOutcome::Walked { comp_unit, uri } => {
                    lemma_walk_bears_uri(g, accepts, uri, comp_unit, g.nodes.len());
                    let f = upto as usize;
                    assert(g.valid_file(f));
                    assert(file_referenced(g, parts, f));
                    assert(addresses_admitted_file(g, parts, source_type, uri));
                    let found = walk(g, accepts, uri, comp_unit, g.nodes.len());
                    assert forall|k: int| 0 <= k < (before + found).len()
                        implies addresses_admitted_file(
                        g,
                        parts,
                        source_type,
                        (#[trigger] (before + found)[k]).file_uri,
                    ) by {
                        if k < before.len() {
                            assert((before + found)[k] == before[k]);
                        } else {
                            assert((before + found)[k] == found[k - before.len()]);
                        }
                    }
                },
                _ => {},
            }
        }
    }
}

/// Of two incidents one may stand before the other.
pub proof fn lemma_reported_before_total(a: ResultModel, b: ResultModel)
    ensures
        reported_before(a, b) || reported_before(b, a),
{
    lemma_lex_le_total(
        vstd::utf8::encode_utf8(a.file_uri),
        vstd::utf8::encode_utf8(b.file_uri),
    );
}

/// Where `a` may stand before `b` and `b` before `c`, `a` may stand before
/// `c`.
pub proof fn lemma_reported_before_transitive(a: ResultModel, b: ResultModel, c: ResultModel)
    requires
        reported_before(a, b),
        reported_before(b, c),
    ensures
        reported_before(a, c),
{
    let x = vstd::utf8::encode_utf8(a.file_uri);
    let y = vstd::utf8::encode_utf8(b.file_uri);
    let z = vstd::utf8::encode_utf8(c.file_uri);
    lemma_lex_le_total(x, y);
    lemma_lex_le_total(y, z);
    lemma_lex_le_total(x, z);
    if lex_le(x, y) && lex_le(y, z) {
        lemma_lex_le_transitive(x, y, z);
    }
    if lex_le(z, x) && lex_le(x, y) {
        lemma_lex_le_transitive(z, x, y);
    }
    if lex_le(y, z) && lex_le(z, x) {
        lemma_lex_le_transitive(y, z, x);
    }
}

/// Whether each incident may stand before every incident behind it.
pub open spec fn in_report_order(s: Seq<ResultModel>) -> bool {
    forall|i: int, j: int| 0 <= i < j < s.len() ==> reported_before(s[i], s[j])
}

/// Putting an incident into an ordered report keeps the report ordered and
/// adds that incident and nothing else.
pub proof fn lemma_insert_reported_keeps_order(s: Seq<ResultModel>, x: ResultModel)
    requires
        in_report_order(s),
    ensures
        in_report_order(insert_reported(s, x)),
        insert_reported(s, x).to_multiset() == s.to_multiset().insert(x),
        insert_reported(s, x).len() == s.len() + 1,
    decreases s.len(),
{
    broadcast use vstd::seq_lib::group_to_multiset_ensures;

    let out = insert_reported(s, x);
    if s.len() == 0 {
        assert(seq![x] =~= s.push(x));
    } else if reported_before(s.last(), x) {
        assert forall|i: int, j: int| 0 <= i < j < out.len() implies reported_before(
            out[i],
            out[j],
        ) by {
            if j == s.len() && i < s.len() - 1 {
                lemma_reported_before_transitive(s[i], s.last(), x);
            }
        }
    } else {
        let front = s.drop_last();
        let last = s.last();
        assert(in_report_order(front));
        lemma_insert_reported_keeps_order(front, x);
        lemma_reported_before_total(last, x);
        let inner = insert_reported(front, x);
        assert forall|k: int| 0 <= k < inner.len() implies reported_before(
            #[trigger] inner[k],
            last,
        ) by {
            // Every incident of the front and the new one may stand before `last`.
            lemma_insert_reported_members(front, x, k);
            if inner[k] != x {
                let m = choose|m: int| 0 <= m < front.len() && front[m] == inner[k];
                assert(reported_before(s[m], s[s.len() - 1]));
            }
        }
        assert forall|i: int, j: int| 0 <= i < j < out.len() implies reported_before(
            out[i],
            out[j],
        ) by {
            if j < inner.len() {
                assert(out[i] == inner[i] && out[j] == inner[j]);
            } else {
                assert(out[i] == inner[i]);
            }
        }
        assert(front.push(last) =~= s);
        assert(out.to_multiset() =~= s.to_multiset().insert(x));
    }
}

/// Each member of a report with one more incident is that incident or a
/// member of the report before.
pub proof fn lemma_insert_reported_members(s: Seq<ResultModel>, x: ResultModel, k: int)
    requires
        0 <= k < insert_reported(s, x).len(),
    ensures
        insert_reported(s, x)[k] == x || exists|m: int|
            0 <= m < s.len() && s[m] == insert_reported(s, x)[k],
    decreases s.len(),
{
    if s.len() == 0 {
    } else if reported_before(s.last(), x) {
        if k < s.len() {
            assert(s[k] == insert_reported(s, x)[k]);
        }
    } else {
        let inner = insert_reported(s.drop_last(), x);
        if k < inner.len() {
            lemma_insert_reported_members(s.drop_last(), x, k);
            if inner[k] != x {
                let m = choose|m: int| 0 <= m < s.drop_last().len() && s.drop_last()[m] == inner[k];
                assert(s[m] == inner[k]);
            }
        } else {
            assert(s[s.len() - 1] == insert_reported(s, x)[k]);
        }
    }
}

/// A report holds the incidents that were found, each as often as it was
/// found, and each incident in it may stand before every incident behind
/// it.
pub proof fn lemma_report_is_ordered(found: Seq<ResultModel>)
    ensures
        in_report_order(report_order(found)),
        report_order(found).to_multiset() == found.to_multiset(),
        report_order(found).len() == found.len(),
    decreases found.len(),
{
    broadcast use vstd::seq_lib::group_to_multiset_ensures;

    if found.len() > 0 {
        lemma_report_is_ordered(found.drop_last());
        lemma_insert_reported_keeps_order(report_order(found.drop_last()), found.last());
        assert(found.drop_last().push(found.last()) =~= found);
    } else {
        assert(found.to_multiset() =~= Seq::<ResultModel>::empty().to_multiset());
    }
}

/// The definition roots are exactly the nodes that declare a matching
/// namespace, each once, in ascending order of their handles.
pub proof fn lemma_definition_roots(g: GraphModel, parts: Seq<Seq<char>>, upto: nat)
    requires
        upto <= usize::MAX,
    ensures
        forall|h: usize| #[trigger]
            definition_roots(g, parts, upto).contains(h) ==> 1 <= h <= upto && is_definition_root(
                g,
                parts,
                h,
            ),
        forall|h: usize|
            1 <= h <= upto && #[trigger] is_definition_root(g, parts, h) ==> definition_roots(
                g,
                parts,
                upto,
            ).contains(h),
        forall|i: int, j: int|
            0 <= i < j < definition_roots(g, parts, upto).len() ==> definition_roots(
                g,
                parts,
                upto,
            )[i] < definition_roots(g, parts, upto)[j],
    decreases upto,
{
    let roots = definition_roots(g, parts, upto);
    if upto > 0 {
        let before = definition_roots(g, parts, (upto - 1) as nat);
        lemma_definition_roots(g, parts, (upto - 1) as nat);
        let last = upto as usize;
        let is_root = is_definition_root(g, parts, last);
        if is_root {
            assert(roots == before.push(last));
        } else {
            assert(roots == before);
        }
        assert forall|h: usize| #[trigger] roots.contains(h) implies 1 <= h <= upto
            && is_definition_root(g, parts, h) by {
            let k = choose|k: int| 0 <= k < roots.len() && roots[k] == h;
            if k < before.len() {
                assert(before[k] == h);
                assert(before.contains(h));
            }
        }
        assert forall|h: usize| 1 <= h <= upto && #[trigger] is_definition_root(
            g,
            parts,
            h,
        ) implies roots.contains(h) by {
            if h == last {
                assert(roots[before.len() as int] == h);
            } else {
                assert(before.contains(h));
                let k = choose|k: int| 0 <= k < before.len() && before[k] == h;
                assert(roots[k] == h);
            }
        }
        assert forall|i: int, j: int| 0 <= i < j < roots.len() implies roots[i] < roots[j] by {
            if j < before.len() {
                assert(roots[i] == before[i] && roots[j] == before[j]);
            } else {
                assert(roots[i] == before[i]);
                assert(before.contains(before[i]));
                assert(roots[j] == last);
            }
        }
    } else {
        assert(roots.len() == 0);
    }
}

/// Where every walk from a node ends within `fuel` edges, walking with a
/// greater bound finds the same incidents in the same order: the bound only
/// guards against cycles.
pub proof fn lemma_deeper_with_more_fuel(
    g: GraphModel,
    accepts: spec_fn(Seq<char>) -> bool,
    uri: Seq<char>,
    node: usize,
    upto: nat,
    fuel: nat,
    more: nat,
)
    requires
        g.bounded(node, fuel),
        fuel <= more,
        upto <= g.node(node).edges.len(),
    ensures
        deeper(g, accepts, uri, node, upto, fuel) == deeper(g, accepts, uri, node, upto, more),
    decreases fuel, upto,
{
    if upto > 0 {
        lemma_deeper_with_more_fuel(g, accepts, uri, node, (upto - 1) as nat, fuel, more);
        if g.ordinary_edge(node, upto - 1) {
            let child = g.node(node).edges[upto - 1].sink;
            assert(fuel > 0 && g.bounded(child, (fuel - 1) as nat));
            lemma_deeper_with_more_fuel(
                g,
                accepts,
                uri,
                child,
                g.node(child).edges.len(),
                (fuel - 1) as nat,
                (more - 1) as nat,
            );
        }
    }
}

/// Where every walk from a node ends within `fuel` edges, the incidents of
/// the walk do not depend on the bound.
pub proof fn lemma_walk_with_more_fuel(
    g: GraphModel,
    accepts: spec_fn(Seq<char>) -> bool,
    uri: Seq<char>,
    node: usize,
    fuel: nat,
    more: nat,
)
    requires
        g.bounded(node, fuel),
        fuel <= more,
    ensures
        walk(g, accepts, uri, node, fuel) == walk(g, accepts, uri, node, more),
{
    lemma_deeper_with_more_fuel(g, accepts, uri, node, g.node(node).edges.len(), fuel, more);
}

} // verus!
