use c_sharp_analyzer_provider_cli::c_sharp_graph::find_node::{FindError, FindNode};
use c_sharp_analyzer_provider_cli::c_sharp_graph::graph::{Graph, Node, SourceInfo};
use c_sharp_analyzer_provider_cli::c_sharp_graph::loader::SourceType;
use c_sharp_analyzer_provider_cli::c_sharp_graph::namespace_query::NamespaceSymbols;
use c_sharp_analyzer_provider_cli::c_sharp_graph::query::{
    get_fqdn, Fqdn, Matcher, Querier, Query, QueryError, QueryKind, QueryType, SyntaxType,
};
use c_sharp_analyzer_provider_cli::c_sharp_graph::results::{
    may_stand_before, sort_incidents, Location, Position, ResultNode, Variable,
};
use c_sharp_analyzer_provider_cli::provider::project::{AnalysisMode, Project, Tools};

const SOURCE_FILE: &str = "/project/Program.cs";
const DEPENDENCY_FILE: &str = "/project/packages/System.Configuration/Decompiled.cs";

fn span(line: usize, from: usize, to: usize) -> Location {
    Location {
        start_position: Position { line, character: from },
        end_position: Position { line, character: to },
    }
}

// Adds a node that pushes `symbol`, with a span and a kind.
fn named(g: &mut Graph, file: usize, symbol: &str, kind: SyntaxType, at: Location) -> usize {
    let s = g.add_symbol(symbol);
    let n = g.add_node(file, Node::PushSymbol { symbol: s }).unwrap();
    g.set_source_info(n, SourceInfo { span: at, syntax_type: Some(kind) }).unwrap();
    n
}

struct Fixture {
    graph: Graph,
    source: SourceType,
    dependency: SourceType,
}

// A source file
//
//     using System.Configuration;
//     class X { void M() { ConfigurationManager.AppSettings["k"]; } }
//
// and a decompiled dependency that declares
// `System.Configuration.ConfigurationManager.AppSettings`.
fn fixture() -> Fixture {
    let mut g = Graph::new();
    let (source, dependency) = SourceType::load_symbols_into_graph(&mut g);

    let src = g.add_file(SOURCE_FILE).unwrap();
    let src_marker = source.load_node_to_graph(&mut g, src).unwrap();
    let unit = named(&mut g, src, "Program.cs", SyntaxType::CompUnit, span(0, 0, 0));
    g.add_edge(src_marker, unit, 0).unwrap();
    let import = named(&mut g, src, "System.Configuration", SyntaxType::Import, span(0, 6, 26));
    g.add_edge(unit, import, 0).unwrap();
    let class_x = named(&mut g, src, "X", SyntaxType::ClassDef, span(1, 6, 7));
    g.add_edge(unit, class_x, 0).unwrap();
    g.add_edge(class_x, unit, 10).unwrap();
    let method_m = named(&mut g, src, "M", SyntaxType::MethodName, span(1, 15, 16));
    g.add_edge(class_x, method_m, 0).unwrap();
    g.add_edge(method_m, class_x, 10).unwrap();
    let manager = named(&mut g, src, "ConfigurationManager", SyntaxType::Name, span(1, 21, 41));
    g.add_edge(method_m, manager, 0).unwrap();
    let settings = named(&mut g, src, "AppSettings", SyntaxType::Name, span(1, 42, 53));
    g.add_edge(method_m, settings, 0).unwrap();

    let dep = g.add_file(DEPENDENCY_FILE).unwrap();
    let dep_marker = dependency.load_node_to_graph(&mut g, dep).unwrap();
    let dep_unit = named(&mut g, dep, "Decompiled.cs", SyntaxType::CompUnit, span(0, 0, 0));
    g.add_edge(dep_marker, dep_unit, 0).unwrap();
    let namespace = named(
        &mut g,
        dep,
        "System.Configuration",
        SyntaxType::NamespaceDeclaration,
        span(2, 10, 30),
    );
    g.add_edge(dep_unit, namespace, 0).unwrap();
    let class = named(&mut g, dep, "ConfigurationManager", SyntaxType::ClassDef, span(4, 24, 44));
    g.add_edge(namespace, class, 0).unwrap();
    g.add_edge(class, namespace, 10).unwrap();
    let method = named(&mut g, dep, "AppSettings", SyntaxType::MethodName, span(6, 30, 41));
    g.add_edge(class, method, 0).unwrap();
    g.add_edge(method, class, 10).unwrap();

    Fixture { graph: g, source, dependency }
}

fn incident(file: &str, at: Location) -> ResultNode {
    let uri = format!("file://{}", file);
    ResultNode {
        file_uri: uri.clone(),
        line_number: at.start_position.line,
        variables: vec![Variable { name: "file".to_string(), value: uri }],
        code_location: at,
    }
}

#[test]
fn full_name_gives_one_incident_in_source() {
    let fx = fixture();
    let q = QueryType::All { graph: &fx.graph, source_type: &fx.source };
    let found = q
        .query("System.Configuration.ConfigurationManager.AppSettings".to_string())
        .unwrap();
    assert_eq!(found, vec![incident(SOURCE_FILE, span(1, 42, 53))]);
    assert_eq!(found[0].line_number, 1);
    assert_eq!(found[0].file_uri, "file:///project/Program.cs");
}

#[test]
fn namespace_wildcard_gives_both_tokens() {
    let fx = fixture();
    let q = QueryType::All { graph: &fx.graph, source_type: &fx.source };
    let found = q.query("System.Configuration.*".to_string()).unwrap();
    assert_eq!(
        found,
        vec![incident(SOURCE_FILE, span(1, 21, 41)), incident(SOURCE_FILE, span(1, 42, 53))]
    );
}

#[test]
fn source_only_leaves_dependency_files_out() {
    let fx = fixture();
    let q = QueryType::All { graph: &fx.graph, source_type: &fx.source };
    let found = q.query("*.*".to_string()).unwrap();
    assert!(!found.is_empty());
    for r in &found {
        assert_eq!(r.file_uri, "file:///project/Program.cs");
    }
}

#[test]
fn full_mode_reports_dependency_files_too() {
    let fx = fixture();
    let q = QueryType::All { graph: &fx.graph, source_type: &fx.dependency };
    let found = q.query("System.Configuration.*".to_string()).unwrap();
    assert_eq!(
        found,
        vec![
            incident(SOURCE_FILE, span(1, 21, 41)),
            incident(SOURCE_FILE, span(1, 42, 53)),
            incident(DEPENDENCY_FILE, span(4, 24, 44)),
            incident(DEPENDENCY_FILE, span(6, 30, 41)),
        ]
    );
}

#[test]
fn query_twice_gives_the_same_incidents() {
    let fx = fixture();
    let first = QueryType::All { graph: &fx.graph, source_type: &fx.source }
        .query("System.Configuration.*".to_string())
        .unwrap();
    let second = QueryType::All { graph: &fx.graph, source_type: &fx.source }
        .query("System.Configuration.*".to_string())
        .unwrap();
    assert_eq!(first, second);
}

#[test]
fn bad_pattern_is_reported() {
    let fx = fixture();
    let q = QueryType::All { graph: &fx.graph, source_type: &fx.source };
    assert_eq!(q.query("System.[*".to_string()), Err(QueryError::BadPattern));
    let q = QueryType::Method { graph: &fx.graph, source_type: &fx.source };
    assert_eq!(q.query("(*".to_string()), Err(QueryError::BadPattern));
}

#[test]
fn unknown_namespace_gives_nothing() {
    let fx = fixture();
    let q = QueryType::All { graph: &fx.graph, source_type: &fx.dependency };
    assert_eq!(q.query("System.Web.*".to_string()), Ok(vec![]));
}

#[test]
fn method_query_needs_class_dot_method() {
    let mut fx = fixture();
    // A reference written as one symbol `class.method`.
    let src = fx.graph.get_file(SOURCE_FILE).unwrap();
    let call = named(
        &mut fx.graph,
        src,
        "ConfigurationManager.AppSettings",
        SyntaxType::Name,
        span(2, 4, 36),
    );
    let unit = 4;
    fx.graph.add_edge(unit, call, 0).unwrap();
    let q = QueryType::Method { graph: &fx.graph, source_type: &fx.source };
    let found = q
        .query("System.Configuration.ConfigurationManager.AppSettings".to_string())
        .unwrap();
    assert_eq!(found, vec![incident(SOURCE_FILE, span(2, 4, 36))]);
}

#[test]
fn nested_namespace_and_class() {
    let mut g = Graph::new();
    let f = g.add_file("/p/a.cs").unwrap();
    let a = named(&mut g, f, "A", SyntaxType::NamespaceDeclaration, span(0, 0, 1));
    let b = named(&mut g, f, "B", SyntaxType::NamespaceDeclaration, span(1, 0, 1));
    let c = named(&mut g, f, "C", SyntaxType::NamespaceDeclaration, span(2, 0, 1));
    let k = named(&mut g, f, "K", SyntaxType::ClassDef, span(3, 0, 1));
    g.add_edge(b, a, 10).unwrap();
    g.add_edge(c, b, 10).unwrap();
    g.add_edge(k, c, 10).unwrap();
    assert_eq!(
        get_fqdn(k, &g),
        Ok(Some(Fqdn { namespace: Some("A.B.C".to_string()), class: Some("K".to_string()), method: None }))
    );
    assert_eq!(
        get_fqdn(a, &g),
        Ok(Some(Fqdn { namespace: Some("A".to_string()), class: None, method: None }))
    );
}

#[test]
fn method_name_is_joined_below_its_class() {
    let fx = fixture();
    // The method `AppSettings` of the dependency is the last node.
    let method = fx.graph.node_count();
    assert_eq!(
        get_fqdn(method, &fx.graph),
        Ok(Some(Fqdn {
            namespace: Some("System.Configuration".to_string()),
            class: Some("ConfigurationManager".to_string()),
            method: Some("AppSettings".to_string()),
        }))
    );
}

#[test]
fn other_kinds_end_the_reconstruction() {
    let mut g = Graph::new();
    let f = g.add_file("/p/a.cs").unwrap();
    let top = named(&mut g, f, "v", SyntaxType::LocalVar, span(0, 0, 1));
    let class = named(&mut g, f, "K", SyntaxType::ClassDef, span(1, 0, 1));
    let method = named(&mut g, f, "M", SyntaxType::MethodName, span(2, 0, 1));
    g.add_edge(class, top, 10).unwrap();
    g.add_edge(method, class, 10).unwrap();
    // The node of another kind gets no name, and neither does any node below it.
    assert_eq!(get_fqdn(top, &g), Ok(None));
    assert_eq!(get_fqdn(class, &g), Ok(None));
    assert_eq!(get_fqdn(method, &g), Ok(None));
}

#[test]
fn class_below_namespace_below_compilation_unit_has_no_name() {
    let mut g = Graph::new();
    let f = g.add_file("/p/a.cs").unwrap();
    let unit = named(&mut g, f, "a.cs", SyntaxType::CompUnit, span(0, 0, 0));
    let ns = named(&mut g, f, "N", SyntaxType::NamespaceDeclaration, span(1, 0, 1));
    let class = named(&mut g, f, "K", SyntaxType::ClassDef, span(2, 0, 1));
    g.add_edge(ns, unit, 10).unwrap();
    g.add_edge(class, ns, 10).unwrap();
    assert_eq!(get_fqdn(unit, &g), Ok(None));
    assert_eq!(get_fqdn(ns, &g), Ok(None));
    assert_eq!(get_fqdn(class, &g), Ok(None));
}

#[test]
fn other_kind_in_the_middle_of_a_chain() {
    let mut g = Graph::new();
    let f = g.add_file("/p/a.cs").unwrap();
    let ns = named(&mut g, f, "N", SyntaxType::NamespaceDeclaration, span(0, 0, 1));
    let arg = named(&mut g, f, "x", SyntaxType::Argument, span(1, 0, 1));
    let method = named(&mut g, f, "M", SyntaxType::MethodName, span(2, 0, 1));
    g.add_edge(arg, ns, 10).unwrap();
    g.add_edge(method, arg, 10).unwrap();
    assert_eq!(
        get_fqdn(ns, &g),
        Ok(Some(Fqdn { namespace: Some("N".to_string()), class: None, method: None }))
    );
    assert_eq!(get_fqdn(arg, &g), Ok(None));
    assert_eq!(get_fqdn(method, &g), Ok(None));
}

#[test]
fn method_with_an_abandoned_name_is_known_under_the_empty_name() {
    let mut g = Graph::new();
    let (_, dependency) = SourceType::load_symbols_into_graph(&mut g);
    let f = g.add_file("/p/a.cs").unwrap();
    let unit = named(&mut g, f, "a.cs", SyntaxType::CompUnit, span(0, 0, 0));
    let ns = named(&mut g, f, "N", SyntaxType::NamespaceDeclaration, span(1, 0, 1));
    g.add_edge(unit, ns, 0).unwrap();
    let method = named(&mut g, f, "M", SyntaxType::MethodName, span(2, 0, 1));
    g.add_edge(ns, method, 0).unwrap();
    // The chain of the method ends in the compilation unit.
    g.add_edge(method, unit, 10).unwrap();
    let empty = named(&mut g, f, ".", SyntaxType::Name, span(3, 0, 1));
    g.add_edge(unit, empty, 0).unwrap();
    let call = named(&mut g, f, "K.M", SyntaxType::Name, span(4, 0, 3));
    g.add_edge(unit, call, 0).unwrap();
    let q = QueryType::Method { graph: &g, source_type: &dependency };
    let found = q.query("N.M".to_string()).unwrap();
    let lines: Vec<usize> = found.iter().map(|r| r.line_number).collect();
    assert_eq!(lines, vec![3]);
}

#[test]
fn name_without_source_information_is_inconsistent() {
    let mut g = Graph::new();
    let f = g.add_file("/p/a.cs").unwrap();
    let s = g.add_symbol("K");
    let bare = g.add_node(f, Node::PushSymbol { symbol: s }).unwrap();
    assert_eq!(get_fqdn(bare, &g), Err(QueryError::GraphInconsistent));
    assert_eq!(get_fqdn(0, &g), Err(QueryError::GraphInconsistent));
    assert_eq!(get_fqdn(99, &g), Err(QueryError::GraphInconsistent));
}

#[test]
fn cycle_of_parent_names_is_inconsistent() {
    let mut g = Graph::new();
    let f = g.add_file("/p/a.cs").unwrap();
    let a = named(&mut g, f, "A", SyntaxType::NamespaceDeclaration, span(0, 0, 1));
    let b = named(&mut g, f, "B", SyntaxType::NamespaceDeclaration, span(1, 0, 1));
    g.add_edge(a, b, 10).unwrap();
    g.add_edge(b, a, 10).unwrap();
    assert_eq!(get_fqdn(a, &g), Err(QueryError::GraphInconsistent));
}

#[test]
fn cycle_of_ordinary_edges_is_inconsistent() {
    let mut fx = fixture();
    // Tie a name inside the method of the source file back to the class.
    let class_x = 6;
    let manager = 8;
    fx.graph.add_edge(manager, class_x, 0).unwrap();
    let q = QueryType::All { graph: &fx.graph, source_type: &fx.source };
    assert_eq!(q.query("System.Configuration.*".to_string()), Err(QueryError::GraphInconsistent));
}

#[test]
fn file_without_address_ends_the_evaluation() {
    let mut g = Graph::new();
    let (_, dependency) = SourceType::load_symbols_into_graph(&mut g);
    // The first file has a relative name, which has no address.
    for name in ["relative/a.cs", "/abs/b.cs"] {
        let f = g.add_file(name).unwrap();
        let unit = named(&mut g, f, "unit", SyntaxType::CompUnit, span(0, 0, 0));
        let ns = named(&mut g, f, "N", SyntaxType::NamespaceDeclaration, span(1, 0, 1));
        g.add_edge(unit, ns, 0).unwrap();
        let class = named(&mut g, f, "K", SyntaxType::ClassDef, span(2, 0, 1));
        g.add_edge(ns, class, 0).unwrap();
    }
    let q = QueryType::All { graph: &g, source_type: &dependency };
    assert_eq!(q.query("N.*".to_string()), Ok(vec![]));
}

#[test]
fn starting_nodes_of_the_fixture() {
    let fx = fixture();
    let q = Querier { graph: &fx.graph, source_type: &fx.source, kind: QueryKind::All };
    let search = q.get_search("System.Configuration.*".to_string()).unwrap();
    let starting = q.get_starting_nodes(&search);
    assert_eq!(starting.referenced_files, vec![true, true]);
    assert_eq!(starting.file_to_compunit_handle, vec![Some(4), Some(11)]);
    assert_eq!(starting.definition_root_nodes, vec![12]);
    assert!(q.file_carries_marker(1, 1, 4));
    assert!(!q.file_carries_marker(1, 2, 11));
    assert!(q.file_carries_marker(2, 2, 11));
}

#[test]
fn find_node_runs_under_the_mode_of_the_project() {
    let tools = Tools { ilspy_cmd: "ilspy".to_string(), paket_cmd: "paket".to_string() };
    let mut project =
        Project::new("/project".to_string(), "/tmp/db".to_string(), AnalysisMode::SourceOnly, tools);
    let search = FindNode { node_type: None, regex: "System.Configuration.*".to_string() };
    assert_eq!(search.run(&project), Err(FindError::GraphNotFound));
    project.validate_language_configuration().unwrap();
    let fx = fixture();
    assert_eq!(project.get_project_graph(fx.graph, 2), Ok(2));
    let search = FindNode { node_type: None, regex: "System.Configuration.*".to_string() };
    let found = search.run(&project).unwrap();
    assert_eq!(
        found,
        vec![incident(SOURCE_FILE, span(1, 21, 41)), incident(SOURCE_FILE, span(1, 42, 53))]
    );
    let search = FindNode { node_type: None, regex: "[*".to_string() };
    assert_eq!(search.run(&project), Err(FindError::Query(QueryError::BadPattern)));
}

#[test]
fn report_is_ordered_by_file_then_line() {
    let a = "/a.cs";
    let b = "/b.cs";
    let found = vec![
        incident(b, span(3, 0, 1)),
        incident(a, span(10, 0, 1)),
        incident(b, span(1, 5, 6)),
        incident(a, span(9, 0, 1)),
        incident(b, span(1, 0, 1)),
        incident(a, span(10, 4, 5)),
    ];
    assert_eq!(
        sort_incidents(found),
        vec![
            incident(a, span(9, 0, 1)),
            incident(a, span(10, 0, 1)),
            incident(a, span(10, 4, 5)),
            incident(b, span(1, 5, 6)),
            incident(b, span(1, 0, 1)),
            incident(b, span(3, 0, 1)),
        ]
    );
    assert_eq!(sort_incidents(vec![]), vec![]);
    assert!(may_stand_before(&incident(a, span(9, 0, 1)), &incident(a, span(9, 3, 4))));
    assert!(may_stand_before(&incident(a, span(99, 0, 1)), &incident(b, span(1, 0, 1))));
    assert!(!may_stand_before(&incident(b, span(1, 0, 1)), &incident(a, span(99, 0, 1))));
    assert!(!may_stand_before(&incident(a, span(10, 0, 1)), &incident(a, span(9, 0, 1))));
}

#[test]
fn incident_of_a_span() {
    let r = ResultNode::new("file:///p/a.cs", span(7, 2, 9));
    assert_eq!(r, incident("/p/a.cs", span(7, 2, 9)));
    assert_eq!(r.line_number, 7);
    assert_eq!(r.variables.len(), 1);
    assert_eq!(r.variables[0].name, "file");
    assert_eq!(r.variables[0].value, "file:///p/a.cs");
}

#[test]
fn project_query_in_both_flavours() {
    let tools = Tools { ilspy_cmd: "ilspy".to_string(), paket_cmd: "paket".to_string() };
    let mut project =
        Project::new("/project".to_string(), "/tmp/db".to_string(), AnalysisMode::Full, tools);
    project.validate_language_configuration().unwrap();
    project.get_project_graph(fixture().graph, 2).unwrap();
    let all = project.query("System.Configuration.*".to_string(), QueryKind::All).unwrap();
    assert_eq!(all.len(), 4);
    // No symbol of the fixture reads `class.method`.
    let methods = project.query("System.Configuration.*".to_string(), QueryKind::Method).unwrap();
    assert_eq!(methods, vec![]);
}

#[test]
fn markers_are_found_wherever_they_were_interned() {
    // The same project as in the fixture, with another symbol interned first.
    let mut g = Graph::new();
    g.add_symbol("System");
    let (source, dependency) = SourceType::load_symbols_into_graph(&mut g);
    assert_eq!(source, SourceType::Source { symbol_handle: 2 });
    let src = g.add_file(SOURCE_FILE).unwrap();
    let marker = source.load_node_to_graph(&mut g, src).unwrap();
    let unit = named(&mut g, src, "Program.cs", SyntaxType::CompUnit, span(0, 0, 0));
    g.add_edge(marker, unit, 0).unwrap();
    let ns = named(&mut g, src, "App", SyntaxType::NamespaceDeclaration, span(1, 0, 3));
    g.add_edge(unit, ns, 0).unwrap();
    let class = named(&mut g, src, "K", SyntaxType::ClassDef, span(2, 0, 1));
    g.add_edge(ns, class, 0).unwrap();
    let dep = g.add_file(DEPENDENCY_FILE).unwrap();
    let dep_marker = dependency.load_node_to_graph(&mut g, dep).unwrap();
    let dep_unit = named(&mut g, dep, "Decompiled.cs", SyntaxType::CompUnit, span(0, 0, 0));
    g.add_edge(dep_marker, dep_unit, 0).unwrap();
    let dep_ns = named(&mut g, dep, "App", SyntaxType::NamespaceDeclaration, span(5, 0, 3));
    g.add_edge(dep_unit, dep_ns, 0).unwrap();

    let stale = SourceType::Source { symbol_handle: 1 };
    assert_eq!(stale.locate_in(&g), SourceType::Source { symbol_handle: 2 });
    assert_eq!(
        SourceType::Dependency { symbol_handle: 2 }.locate_in(&g),
        SourceType::Dependency { symbol_handle: 3 }
    );
    assert_eq!(stale.locate_in(&Graph::new()), SourceType::Source { symbol_handle: 0 });

    let tools = Tools { ilspy_cmd: "ilspy".to_string(), paket_cmd: "paket".to_string() };
    let mut project =
        Project::new("/project".to_string(), "/tmp/db".to_string(), AnalysisMode::SourceOnly, tools);
    project.validate_language_configuration().unwrap();
    project.get_project_graph(g, 2).unwrap();
    // The project's marker has handle 1; the source file is found all the same.
    assert_eq!(project.get_source_type(), Some(SourceType::Source { symbol_handle: 1 }));
    let found = project.query("App.*".to_string(), QueryKind::All).unwrap();
    let places: Vec<(String, usize)> =
        found.iter().map(|r| (r.file_uri.clone(), r.line_number)).collect();
    assert_eq!(places, vec![("file:///project/Program.cs".to_string(), 2)]);
}

#[test]
fn earlier_incidents_stay_in_front_of_a_walk() {
    let fx = fixture();
    let q = Querier { graph: &fx.graph, source_type: &fx.source, kind: QueryKind::All };
    let search = q.get_search("System.Configuration.*".to_string()).unwrap();
    let starting = q.get_starting_nodes(&search);
    let matcher = Matcher::Namespace(
        NamespaceSymbols::new(&fx.graph, &starting.definition_root_nodes, &search).unwrap(),
    );
    let earlier = incident("/other.cs", span(9, 0, 1));
    let mut results = vec![earlier.clone()];
    assert!(q.traverse_node_search(4, &matcher, &mut results, "file:///x".to_string(), 20));
    assert_eq!(results.len(), 3);
    assert_eq!(results[0], earlier);
    // Too tight a bound ends the walk early; what was there stays in front.
    let mut results = vec![earlier.clone()];
    assert!(!q.traverse_node_search(4, &matcher, &mut results, "file:///x".to_string(), 1));
    assert_eq!(results[0], earlier);
    let mut results = vec![earlier.clone()];
    assert!(!q.traverse_node_search(0, &matcher, &mut results, "file:///x".to_string(), 20));
    assert_eq!(results, vec![earlier]);
}
