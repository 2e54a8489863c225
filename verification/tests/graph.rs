use c_sharp_analyzer_provider_cli::c_sharp_graph::graph::{
    Edge, Graph, GraphError, Node, SourceInfo,
};
use c_sharp_analyzer_provider_cli::c_sharp_graph::language_config::SourceNodeLanguageConfiguration;
use c_sharp_analyzer_provider_cli::c_sharp_graph::loader::SourceType;
use c_sharp_analyzer_provider_cli::c_sharp_graph::query::SyntaxType;
use c_sharp_analyzer_provider_cli::c_sharp_graph::results::{Location, Position};

fn span(line: usize, from: usize, to: usize) -> Location {
    Location {
        start_position: Position { line, character: from },
        end_position: Position { line, character: to },
    }
}

#[test]
fn new_graph_holds_the_two_sentinels() {
    let g = Graph::new();
    assert_eq!(g.node_count(), 2);
    assert_eq!(g.symbol_count(), 0);
    assert_eq!(g.file_count(), 0);
    assert_eq!(g.node(1).node, Node::Root);
    assert_eq!(g.node(2).node, Node::JumpTo);
    assert_eq!(g.node(1).file, None);
}

#[test]
fn equal_symbols_share_a_handle() {
    let mut g = Graph::new();
    let a = g.add_symbol("System");
    let b = g.add_symbol("Configuration");
    let c = g.add_symbol("System");
    assert_eq!(a, 1);
    assert_eq!(b, 2);
    assert_eq!(c, 1);
    assert_eq!(g.symbol_count(), 2);
    assert_eq!(g.symbol(2), "Configuration");
    assert_eq!(g.get_symbol("Configuration"), Some(2));
    assert_eq!(g.get_symbol("Web"), None);
}

#[test]
fn file_names_are_unique() {
    let mut g = Graph::new();
    assert_eq!(g.add_file("/p/a.cs"), Ok(1));
    assert_eq!(g.add_file("/p/b.cs"), Ok(2));
    assert_eq!(g.add_file("/p/a.cs"), Err(1));
    assert_eq!(g.file_count(), 2);
    assert_eq!(g.get_file("/p/b.cs"), Some(2));
    assert_eq!(g.get_file("/p/c.cs"), None);
    assert_eq!(g.file_name(1), "/p/a.cs");
}

#[test]
fn nodes_need_a_known_file_and_symbol() {
    let mut g = Graph::new();
    let f = g.add_file("/p/a.cs").unwrap();
    let s = g.add_symbol("X");
    assert_eq!(g.add_node(f, Node::Scope), Ok(3));
    assert_eq!(g.add_node(f, Node::PushSymbol { symbol: s }), Ok(4));
    assert_eq!(g.add_node(f + 1, Node::Scope), Err(GraphError::UnknownHandle));
    assert_eq!(g.add_node(0, Node::Scope), Err(GraphError::UnknownHandle));
    assert_eq!(g.add_node(f, Node::PushSymbol { symbol: s + 1 }), Err(GraphError::UnknownHandle));
    assert_eq!(g.add_node(f, Node::Root), Err(GraphError::UnknownHandle));
    assert_eq!(g.add_node(f, Node::JumpTo), Err(GraphError::UnknownHandle));
    assert_eq!(g.node_count(), 4);
    assert_eq!(g.node(4).file, Some(f));
    assert_eq!(g.node(4).node.symbol(), Some(s));
    assert_eq!(g.node(3).node.symbol(), None);
}

#[test]
fn edges_are_kept_in_order_of_their_sinks() {
    let mut g = Graph::new();
    let f = g.add_file("/p/a.cs").unwrap();
    let a = g.add_node(f, Node::Scope).unwrap();
    let b = g.add_node(f, Node::Scope).unwrap();
    let c = g.add_node(f, Node::Scope).unwrap();
    let d = g.add_node(f, Node::Scope).unwrap();
    assert_eq!(g.add_edge(a, d, 0), Ok(()));
    assert_eq!(g.add_edge(a, b, 0), Ok(()));
    assert_eq!(g.add_edge(a, c, 10), Ok(()));
    // A second edge to the same sink changes nothing, whatever its precedence.
    assert_eq!(g.add_edge(a, b, 5), Ok(()));
    assert_eq!(
        g.node(a).edges,
        vec![
            Edge { sink: b, precedence: 0 },
            Edge { sink: c, precedence: 10 },
            Edge { sink: d, precedence: 0 },
        ]
    );
}

#[test]
fn a_second_parent_name_edge_is_refused() {
    let mut g = Graph::new();
    let f = g.add_file("/p/a.cs").unwrap();
    let a = g.add_node(f, Node::Scope).unwrap();
    let b = g.add_node(f, Node::Scope).unwrap();
    let c = g.add_node(f, Node::Scope).unwrap();
    assert_eq!(g.add_edge(a, b, 10), Ok(()));
    assert_eq!(g.add_edge(a, c, 10), Err(GraphError::SecondFqnParent));
    assert_eq!(g.add_edge(a, b, 10), Ok(()));
    assert_eq!(g.add_edge(a, c, 9), Ok(()));
    assert_eq!(g.add_edge(a, 99, 0), Err(GraphError::UnknownHandle));
    assert_eq!(g.add_edge(0, a, 0), Err(GraphError::UnknownHandle));
    assert_eq!(g.node(a).edges.len(), 2);
}

#[test]
fn named_kinds_need_a_symbol() {
    let mut g = Graph::new();
    let f = g.add_file("/p/a.cs").unwrap();
    let s = g.add_symbol("K");
    let scope = g.add_node(f, Node::Scope).unwrap();
    let named = g.add_node(f, Node::PopSymbol { symbol: s, is_definition: true }).unwrap();
    let class = SourceInfo { span: span(3, 6, 7), syntax_type: Some(SyntaxType::ClassDef) };
    assert_eq!(g.set_source_info(scope, class), Err(GraphError::MissingSymbol));
    assert_eq!(g.set_source_info(named, class), Ok(()));
    assert_eq!(g.node(named).source_info, Some(class));
    assert_eq!(g.node(scope).source_info, None);
    let plain = SourceInfo { span: span(1, 0, 1), syntax_type: Some(SyntaxType::Name) };
    assert_eq!(g.set_source_info(scope, plain), Ok(()));
    assert_eq!(g.set_source_info(77, plain), Err(GraphError::UnknownHandle));
}

#[test]
fn a_file_has_one_compilation_unit() {
    let mut g = Graph::new();
    let f = g.add_file("/p/a.cs").unwrap();
    let other = g.add_file("/p/b.cs").unwrap();
    let a = g.add_node(f, Node::Scope).unwrap();
    let b = g.add_node(f, Node::Scope).unwrap();
    let c = g.add_node(other, Node::Scope).unwrap();
    let unit = SourceInfo { span: span(0, 0, 0), syntax_type: Some(SyntaxType::CompUnit) };
    assert_eq!(g.set_source_info(a, unit), Ok(()));
    assert_eq!(g.set_source_info(b, unit), Err(GraphError::SecondCompilationUnit));
    assert_eq!(g.set_source_info(c, unit), Ok(()));
    // Setting it again on the same node is no second unit.
    assert_eq!(g.set_source_info(a, unit), Ok(()));
}

#[test]
fn markers_are_the_first_two_symbols() {
    let mut g = Graph::new();
    let (source, dependency) = SourceType::load_symbols_into_graph(&mut g);
    assert_eq!(source, SourceType::Source { symbol_handle: 1 });
    assert_eq!(dependency, SourceType::Dependency { symbol_handle: 2 });
    assert_eq!(g.symbol(1), "konveyor.io/source_type=source");
    assert_eq!(g.symbol(2), "konveyor.io/source_type=dependency");
    // Loading them again gives the same handles.
    let again = SourceType::load_symbols_into_graph(&mut g);
    assert_eq!(again, (source, dependency));
    assert_eq!(g.symbol_count(), 2);
}

#[test]
fn marker_handles_are_the_same_in_every_run() {
    let mut first = Graph::new();
    let mut second = Graph::new();
    let a = SourceType::load_symbols_into_graph(&mut first);
    let b = SourceType::load_symbols_into_graph(&mut second);
    assert_eq!(a, b);
}

#[test]
fn marker_strings() {
    assert_eq!(SourceType::get_source_string(), "konveyor.io/source_type=source");
    assert_eq!(SourceType::get_dependency_string(), "konveyor.io/source_type=dependency");
    let s = SourceType::Source { symbol_handle: 1 };
    let d = SourceType::Dependency { symbol_handle: 2 };
    assert_eq!(s.get_string(), "konveyor.io/source_type=source");
    assert_eq!(d.get_string(), "konveyor.io/source_type=dependency");
    assert_eq!(s.get_symbol_handle(), 1);
    assert_eq!(d.get_symbol_handle(), 2);
}

#[test]
fn marker_node_is_added_to_its_file() {
    let mut g = Graph::new();
    let (source, _) = SourceType::load_symbols_into_graph(&mut g);
    let f = g.add_file("/p/a.cs").unwrap();
    let n = source.load_node_to_graph(&mut g, f).unwrap();
    assert_eq!(n, 3);
    assert_eq!(g.node(n).node, Node::PopSymbol { symbol: 1, is_definition: false });
    assert_eq!(g.node(n).file, Some(f));
    assert_eq!(source.load_node_to_graph(&mut g, f + 1), Err(GraphError::UnknownHandle));
    let stray = SourceType::Source { symbol_handle: 9 };
    assert_eq!(stray.load_node_to_graph(&mut g, f), Err(GraphError::UnknownHandle));
}

#[test]
fn builtins_hold_both_markers() {
    let config = SourceNodeLanguageConfiguration::new();
    assert_eq!(config.source_type_node_info, SourceType::Source { symbol_handle: 1 });
    assert_eq!(config.dependnecy_type_node_info, SourceType::Dependency { symbol_handle: 2 });
    let g = &config.builtins;
    assert_eq!(g.file_count(), 1);
    assert_eq!(g.file_name(1), "<builtins>");
    assert_eq!(g.symbol_count(), 2);
    assert_eq!(g.node_count(), 4);
    assert_eq!(g.node(3).node, Node::PopSymbol { symbol: 1, is_definition: false });
    assert_eq!(g.node(4).node, Node::PopSymbol { symbol: 2, is_definition: false });
}

#[test]
fn syntax_kinds_are_read_from_their_tags() {
    assert_eq!(SyntaxType::get("import"), SyntaxType::Import);
    assert_eq!(SyntaxType::get("comp_unit"), SyntaxType::CompUnit);
    assert_eq!(SyntaxType::get("namespace_declaration"), SyntaxType::NamespaceDeclaration);
    assert_eq!(SyntaxType::get("class_def"), SyntaxType::ClassDef);
    assert_eq!(SyntaxType::get("method_name"), SyntaxType::MethodName);
    assert_eq!(SyntaxType::get("local_var"), SyntaxType::LocalVar);
    assert_eq!(SyntaxType::get("argument"), SyntaxType::Argument);
    assert_eq!(SyntaxType::get("name"), SyntaxType::Name);
    assert_eq!(SyntaxType::get("anything else"), SyntaxType::Name);
    assert_eq!(SyntaxType::get(""), SyntaxType::Name);
}

#[test]
fn markers_must_stand_at_the_first_two_handles() {
    let mut g = Graph::new();
    assert!(!g.has_markers_in_place());
    g.add_symbol("konveyor.io/source_type=source");
    assert!(!g.has_markers_in_place());
    g.add_symbol("konveyor.io/source_type=dependency");
    assert!(g.has_markers_in_place());
    g.add_symbol("System");
    assert!(g.has_markers_in_place());
    // In the other order the markers are not in place.
    let mut swapped = Graph::new();
    swapped.add_symbol("konveyor.io/source_type=dependency");
    swapped.add_symbol("konveyor.io/source_type=source");
    assert!(!swapped.has_markers_in_place());
    let mut late = Graph::new();
    late.add_symbol("System");
    SourceType::load_symbols_into_graph(&mut late);
    assert!(!late.has_markers_in_place());
    assert!(SourceNodeLanguageConfiguration::new().builtins.has_markers_in_place());
}
